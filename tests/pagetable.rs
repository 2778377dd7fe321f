use mantahal::access::{translate_byte_buffer, translate_ref, translate_refmut, translate_string};
use mantahal::addr::{PhysAddr, PhysPageNum, VirtAddr, VirtPageNum};
use mantahal::error::MmError;
use mantahal::flags::{PTEFlags, PTOps, FLAG_A, FLAG_D, FLAG_G, FLAG_R, FLAG_U, FLAG_V, FLAG_W, FLAG_X};
use mantahal::frame_allocator::StackFrameAllocator;
use mantahal::loongarch64::Loongarch64PTImpl;
use mantahal::pagetable::PageTable;
use mantahal::phys::PhysMemory;
use mantahal::riscv64::Riscv64PTImpl;

fn machine() -> (PhysMemory, StackFrameAllocator) {
    let mem = PhysMemory::new(PhysPageNum(0x80000), 0x400);
    let mut a = StackFrameAllocator::new();
    a.init(PhysPageNum(0x80000), PhysPageNum(0x80400));
    (mem, a)
}

fn flags(bits: u64) -> PTEFlags {
    PTEFlags { bits }
}

#[test]
fn first_mapping_builds_two_intermediate_tables() {
    let (mut mem, mut a) = machine();
    let mut pt = PageTable::<Riscv64PTImpl>::new(&mut mem, &mut a).unwrap();
    assert_eq!(pt.frame_count(), 1);
    assert_eq!(pt.root_ppn(), PhysPageNum(0x80000));
    pt.map(&mut mem, &mut a, VirtPageNum(1), PhysPageNum(0x10), flags(FLAG_R | FLAG_W)).unwrap();
    assert_eq!(pt.frame_count(), 3);
    assert_eq!(pt.translate_va(&mem, VirtAddr(0x1020)), Some(PhysAddr(0x10020)));
    assert_eq!(a.alloc_frame(), Some(PhysPageNum(0x80003)));
}

#[test]
fn mapped_entry_reads_back_on_both_formats() {
    let (mut mem, mut a) = machine();
    let mut rv = PageTable::<Riscv64PTImpl>::new(&mut mem, &mut a).unwrap();
    let all = FLAG_R | FLAG_W | FLAG_X | FLAG_U | FLAG_D | FLAG_A | FLAG_G;
    rv.map(&mut mem, &mut a, VirtPageNum(0x12345), PhysPageNum(0x777), flags(all)).unwrap();
    let e = rv.translate_vpn(&mem, VirtPageNum(0x12345)).unwrap();
    assert_eq!(e.ppn::<Riscv64PTImpl>(), PhysPageNum(0x777));
    assert_eq!(e.flags::<Riscv64PTImpl>().bits(), all | FLAG_V);

    let mut la = PageTable::<Loongarch64PTImpl>::new(&mut mem, &mut a).unwrap();
    la.map(&mut mem, &mut a, VirtPageNum(0x2_0001), PhysPageNum(0x999), flags(all)).unwrap();
    let e = la.translate_vpn(&mem, VirtPageNum(0x2_0001)).unwrap();
    assert_eq!(e.ppn::<Loongarch64PTImpl>(), PhysPageNum(0x999));
    assert_eq!(e.flags::<Loongarch64PTImpl>().bits(), all | FLAG_V);
    la.map(&mut mem, &mut a, VirtPageNum(0x2_0002), PhysPageNum(0x99a), flags(FLAG_A)).unwrap();
    let e = la.translate_vpn(&mem, VirtPageNum(0x2_0002)).unwrap();
    assert_eq!(e.flags::<Loongarch64PTImpl>().bits(), FLAG_A | FLAG_V);
    assert_eq!(la.translate_va(&mem, VirtAddr(0x2000_1abc)), Some(PhysAddr(0x999abc)));
}

#[test]
fn unmapped_page_is_not_found() {
    let (mut mem, mut a) = machine();
    let mut pt = PageTable::<Riscv64PTImpl>::new(&mut mem, &mut a).unwrap();
    assert!(pt.translate_vpn(&mem, VirtPageNum(3)).is_none());
    pt.map(&mut mem, &mut a, VirtPageNum(3), PhysPageNum(0x30), flags(FLAG_R)).unwrap();
    pt.map(&mut mem, &mut a, VirtPageNum(4), PhysPageNum(0x40), flags(FLAG_R)).unwrap();
    assert_eq!(pt.frame_count(), 3);
    pt.unmap(&mut mem, VirtPageNum(3));
    assert!(pt.translate_vpn(&mem, VirtPageNum(3)).is_none());
    assert_eq!(pt.translate_va(&mem, VirtAddr(0x3000)), None);
    assert_eq!(pt.translate_va(&mem, VirtAddr(0x4008)), Some(PhysAddr(0x40008)));
    pt.map(&mut mem, &mut a, VirtPageNum(3), PhysPageNum(0x31), flags(FLAG_W)).unwrap();
    assert_eq!(pt.translate_va(&mem, VirtAddr(0x3001)), Some(PhysAddr(0x31001)));
}

#[test]
fn map_fails_when_frames_run_out() {
    let mut mem = PhysMemory::new(PhysPageNum(0x100), 2);
    let mut a = StackFrameAllocator::new();
    a.init(PhysPageNum(0x100), PhysPageNum(0x102));
    let mut pt = PageTable::<Riscv64PTImpl>::new(&mut mem, &mut a).unwrap();
    let r = pt.map(&mut mem, &mut a, VirtPageNum(1), PhysPageNum(5), flags(FLAG_R));
    assert_eq!(r, Err(MmError::FramesExhausted));
    assert!(pt.translate_vpn(&mem, VirtPageNum(1)).is_none());
    let r = PageTable::<Riscv64PTImpl>::new(&mut mem, &mut a);
    assert!(matches!(r, Err(MmError::FramesExhausted)));
}

#[test]
fn foreign_table_cannot_grow() {
    let (mut mem, mut a) = machine();
    let pt = PageTable::<Loongarch64PTImpl>::new(&mut mem, &mut a).unwrap();
    let mut foreign = PageTable::<Loongarch64PTImpl>::from_token(pt.token());
    assert_eq!(foreign.root_ppn(), pt.root_ppn());
    assert_eq!(foreign.frame_count(), 0);
    let r = foreign.find_or_create_pte(&mut mem, &mut a, VirtPageNum(9));
    assert_eq!(r, Err(MmError::NoOwnedFrames));
    assert_eq!(a.alloc_frame(), Some(PhysPageNum(0x80001)));
}

fn write_bytes(mem: &mut PhysMemory, pa: usize, bytes: &[u8]) {
    for (k, b) in bytes.iter().enumerate() {
        assert!(mem.write_byte(PhysAddr(pa + k), *b));
    }
}

#[test]
fn foreign_string_read_checks_permission() {
    let (mut mem, mut a) = machine();
    let mut pt = PageTable::<Riscv64PTImpl>::new(&mut mem, &mut a).unwrap();
    let data = a.alloc_frame().unwrap();
    write_bytes(&mut mem, data.to_paddr().0 + 0x10, b"ok\0");
    pt.map(&mut mem, &mut a, VirtPageNum(5), data, flags(FLAG_R | FLAG_U)).unwrap();
    pt.map(&mut mem, &mut a, VirtPageNum(6), data, flags(FLAG_W | FLAG_U)).unwrap();
    let foreign = PageTable::<Riscv64PTImpl>::from_token(pt.token());
    assert_eq!(translate_string(&foreign, &mem, VirtAddr(0x5010)), Ok("ok".to_string()));
    assert_eq!(translate_string(&foreign, &mem, VirtAddr(0x6010)), Err(MmError::PermissionDenied));
    assert_eq!(translate_string(&foreign, &mem, VirtAddr(0x7010)), Err(MmError::TranslationMiss));
}

#[test]
fn string_crossing_into_unmapped_page_misses() {
    let (mut mem, mut a) = machine();
    let mut pt = PageTable::<Riscv64PTImpl>::new(&mut mem, &mut a).unwrap();
    let data = a.alloc_frame().unwrap();
    write_bytes(&mut mem, data.to_paddr().0 + 0xffe, b"hi");
    pt.map(&mut mem, &mut a, VirtPageNum(5), data, flags(FLAG_R)).unwrap();
    assert_eq!(translate_string(&pt, &mem, VirtAddr(0x5ffe)), Err(MmError::TranslationMiss));
    assert_eq!(translate_string(&pt, &mem, VirtAddr(0x5000)), Ok(String::new()));
}

#[test]
fn byte_buffer_splits_at_page_boundary() {
    let (mut mem, mut a) = machine();
    let mut pt = PageTable::<Loongarch64PTImpl>::new(&mut mem, &mut a).unwrap();
    pt.map(&mut mem, &mut a, VirtPageNum(7), PhysPageNum(0x500), flags(FLAG_R)).unwrap();
    pt.map(&mut mem, &mut a, VirtPageNum(8), PhysPageNum(0x300), flags(FLAG_R | FLAG_W)).unwrap();
    let chunks = translate_byte_buffer(&pt, &mem, VirtAddr(0x7000 + 4000), 200).unwrap();
    assert_eq!(chunks, vec![(PhysAddr(0x500000 + 4000), 96), (PhysAddr(0x300000), 104)]);
    assert_eq!(translate_byte_buffer(&pt, &mem, VirtAddr(0x7010), 0), Ok(vec![]));
    assert_eq!(translate_byte_buffer(&pt, &mem, VirtAddr(0x8f00), 0x200), Err(MmError::TranslationMiss));
    assert_eq!(translate_byte_buffer(&pt, &mem, VirtAddr(usize::MAX), 2), Err(MmError::TranslationMiss));
}

#[test]
fn single_values_need_the_right_permission() {
    let (mut mem, mut a) = machine();
    let mut pt = PageTable::<Riscv64PTImpl>::new(&mut mem, &mut a).unwrap();
    pt.map(&mut mem, &mut a, VirtPageNum(2), PhysPageNum(0x20), flags(FLAG_R)).unwrap();
    pt.map(&mut mem, &mut a, VirtPageNum(3), PhysPageNum(0x30), flags(FLAG_W)).unwrap();
    assert_eq!(translate_ref::<_, u64>(&pt, &mem, VirtAddr(0x2008)), Ok(PhysAddr(0x20008)));
    assert_eq!(translate_refmut::<_, u64>(&pt, &mem, VirtAddr(0x2008)), Err(MmError::PermissionDenied));
    assert_eq!(translate_refmut::<_, u32>(&pt, &mem, VirtAddr(0x3010)), Ok(PhysAddr(0x30010)));
    assert_eq!(translate_ref::<_, u32>(&pt, &mem, VirtAddr(0x3010)), Err(MmError::PermissionDenied));
    assert_eq!(translate_ref::<_, u8>(&pt, &mem, VirtAddr(0x9000)), Err(MmError::TranslationMiss));
}

#[test]
fn single_values_must_be_aligned_and_within_a_page() {
    let (mut mem, mut a) = machine();
    let mut pt = PageTable::<Riscv64PTImpl>::new(&mut mem, &mut a).unwrap();
    pt.map(&mut mem, &mut a, VirtPageNum(2), PhysPageNum(0x20), flags(FLAG_R | FLAG_W)).unwrap();
    assert_eq!(translate_ref::<_, u64>(&pt, &mem, VirtAddr(0x2004)), Err(MmError::MisalignedAddress));
    assert_eq!(translate_refmut::<_, u16>(&pt, &mem, VirtAddr(0x2003)), Err(MmError::MisalignedAddress));
    assert_eq!(translate_ref::<_, [u8; 16]>(&pt, &mem, VirtAddr(0x2ff8)), Err(MmError::MisalignedAddress));
    assert_eq!(translate_ref::<_, [u8; 8]>(&pt, &mem, VirtAddr(0x2ff8)), Ok(PhysAddr(0x20ff8)));
    assert_eq!(translate_ref::<_, u8>(&pt, &mem, VirtAddr(0x2fff)), Ok(PhysAddr(0x20fff)));
}

#[test]
fn arena_reads_and_writes() {
    let mut mem = PhysMemory::new(PhysPageNum(0x10), 2);
    assert_eq!(mem.base(), PhysPageNum(0x10));
    assert_eq!(mem.npages(), 2);
    assert!(mem.contains_frame(PhysPageNum(0x11)));
    assert!(!mem.contains_frame(PhysPageNum(0x12)));
    mem.write_entry(PhysPageNum(0x11), 5, 0xdead_beef);
    assert_eq!(mem.read_entry(PhysPageNum(0x11), 5), 0xdead_beef);
    assert_eq!(mem.read_byte(PhysAddr(0x11028)), Some(0xef));
    assert_eq!(mem.read_byte(PhysAddr(0x1102b)), Some(0xde));
    assert!(mem.write_byte(PhysAddr(0x11029), 0x11));
    assert_eq!(mem.read_entry(PhysPageNum(0x11), 5), 0xdead_11ef);
    mem.zero_frame(PhysPageNum(0x11));
    assert_eq!(mem.read_entry(PhysPageNum(0x11), 5), 0);
    assert_eq!(mem.read_byte(PhysAddr(0x12000)), None);
    assert!(!mem.write_byte(PhysAddr(0xfff), 1));
}

#[test]
fn destroyed_table_returns_its_frames() {
    let (mut mem, mut a) = machine();
    let mut pt = PageTable::<Riscv64PTImpl>::new(&mut mem, &mut a).unwrap();
    pt.map(&mut mem, &mut a, VirtPageNum(1), PhysPageNum(0x10), flags(FLAG_R)).unwrap();
    assert_eq!(pt.frame_count(), 3);
    pt.destroy(&mem, &mut a);
    assert_eq!(a.alloc_frame(), Some(PhysPageNum(0x80002)));
    assert_eq!(a.alloc_frame(), Some(PhysPageNum(0x80001)));
    assert_eq!(a.alloc_frame(), Some(PhysPageNum(0x80000)));
    assert_eq!(a.alloc_frame(), Some(PhysPageNum(0x80003)));
}

#[test]
fn new_tables_are_linked_and_otherwise_empty() {
    let (mut mem, mut a) = machine();
    let p = a.alloc_frame().unwrap();
    a.dealloc(p);
    let mut pt = PageTable::<Riscv64PTImpl>::new(&mut mem, &mut a).unwrap();
    assert_eq!(pt.root_ppn(), p);
    pt.map(&mut mem, &mut a, VirtPageNum(1), PhysPageNum(0x10), flags(FLAG_R | FLAG_W)).unwrap();
    let l1 = PhysPageNum(0x80001);
    let l2 = PhysPageNum(0x80002);
    assert_eq!(mem.read_entry(p, 0), Riscv64PTImpl::pte_new_intermediate(l1).bits);
    assert_eq!(mem.read_entry(l1, 0), Riscv64PTImpl::pte_new_intermediate(l2).bits);
    assert_eq!(mem.read_entry(l2, 1), Riscv64PTImpl::pte_new_leaf(PhysPageNum(0x10), flags(FLAG_R | FLAG_W)).bits);
    for j in 0..512usize {
        if j != 0 {
            assert_eq!(mem.read_entry(p, j), 0);
            assert_eq!(mem.read_entry(l1, j), 0);
        }
        if j != 1 {
            assert_eq!(mem.read_entry(l2, j), 0);
        }
    }
}

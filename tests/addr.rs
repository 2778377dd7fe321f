use mantahal::addr::{PhysAddr, PhysPageNum, VirtAddr, VirtPageNum};

#[test]
fn aligned_address_floor_equals_ceil() {
    for a in [0usize, 0x1000, 0x8000_0000, 0x1234_5000] {
        let pa = PhysAddr(a);
        assert!(pa.aligned());
        assert_eq!(pa.floor(), pa.ceil());
        assert_eq!(pa.floor().to_paddr(), pa);
        let va = VirtAddr(a);
        assert_eq!(va.floor(), va.ceil());
        assert_eq!(va.floor().address(), va);
    }
}

#[test]
fn unaligned_address_rounds_both_ways() {
    let pa = PhysAddr(0x1020);
    assert!(!pa.aligned());
    assert_eq!(pa.page_offset(), 0x20);
    assert_eq!(pa.floor(), PhysPageNum(1));
    assert_eq!(pa.ceil(), PhysPageNum(2));
    assert_eq!(pa.page_number(), PhysPageNum(1));
    let va = VirtAddr(0x2fff);
    assert_eq!(va.page_offset(), 0xfff);
    assert_eq!(va.floor(), VirtPageNum(2));
    assert_eq!(va.ceil(), VirtPageNum(3));
    assert_eq!(va.round_down(), VirtAddr(0x2000));
    assert_eq!(va.round_up(), VirtAddr(0x3000));
    assert_eq!(va.page_number(), VirtPageNum(2));
}

#[test]
fn ceil_of_largest_address_does_not_overflow() {
    let va = VirtAddr(usize::MAX);
    assert_eq!(va.ceil(), VirtPageNum(usize::MAX / 4096 + 1));
    assert_eq!(va.floor(), VirtPageNum(usize::MAX / 4096));
}

#[test]
fn page_numbers_convert_and_step() {
    let mut p = PhysPageNum(0x80000);
    assert_eq!(p.to_paddr(), PhysAddr(0x8000_0000));
    assert_eq!(p.address(), PhysAddr(0x8000_0000));
    p.step();
    assert_eq!(p.bits(), 0x80001);
    let mut v = VirtPageNum(7);
    v.step();
    assert_eq!(v, VirtPageNum(8));
    assert_eq!(v.address(), VirtAddr(0x8000));
    assert_eq!(VirtAddr::from_usize(0x42).bits(), 0x42);
    assert!(VirtAddr(0).is_null());
    assert!(!VirtAddr(1).is_null());
    assert_eq!(PhysAddr(0x1234).bits(), 0x1234);
}

#[test]
fn indices_split_page_number_root_first() {
    assert_eq!(VirtPageNum(0x1_0203).indices(3), vec![0, 129, 3]);
    assert_eq!(VirtPageNum(1).indices(3), vec![0, 0, 1]);
    assert_eq!(VirtPageNum((5 << 18) | (6 << 9) | 7).indices(3), vec![5, 6, 7]);
    assert_eq!(VirtPageNum((1 << 27) | 2).indices(4), vec![1, 0, 0, 2]);
}

#[test]
fn aligned_addresses_convert_to_page_numbers() {
    assert_eq!(PhysPageNum::from_addr(PhysAddr(0x8020_0000)), PhysPageNum(0x80200));
    assert_eq!(VirtPageNum::from_addr(VirtAddr(0x3000)), VirtPageNum(3));
}

#[test]
fn std_conversions_round_trip_aligned_addresses() {
    for a in [0usize, 0x1000, 0x8020_0000, 0x7fff_f000] {
        let vpn = VirtPageNum::from_addr(VirtAddr(a));
        assert_eq!(VirtAddr::from(vpn), VirtAddr(a));
        let ppn = PhysPageNum::from_addr(PhysAddr(a));
        assert_eq!(PhysAddr::from(ppn), PhysAddr(a));
    }
    assert_eq!(usize::from(PhysAddr(5)), 5);
    assert_eq!(usize::from(VirtAddr(6)), 6);
    assert_eq!(usize::from(PhysPageNum(7)), 7);
    assert_eq!(usize::from(VirtPageNum(8)), 8);
}

#[test]
fn direct_map_conversions() {
    assert_eq!(PhysAddr(0x8020_0000).to_vaddr(), VirtAddr(0xffff_ffc0_8020_0000));
    assert_eq!(VirtAddr(0xffff_ffc0_8020_0000).to_paddr(), Some(PhysAddr(0x8020_0000)));
    assert_eq!(VirtAddr(0x8020_0000).to_paddr(), None);
}

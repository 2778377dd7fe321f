use mantahal::addr::{PhysAddr, PhysPageNum, VirtAddr, VirtPageNum};
use mantahal::flags::{
    PTEFlags, PTOps, PageTableEntry, FLAG_A, FLAG_D, FLAG_G, FLAG_R, FLAG_U, FLAG_V, FLAG_W, FLAG_X,
};
use mantahal::loongarch64::{
    pa_from_usize, ppn_from_usize as la_ppn_from_usize, ptwalker_config, va_from_usize, vpn_from_usize,
    Loongarch64PTEFlags, Loongarch64PTImpl,
};
use mantahal::riscv64::{ppn_from_usize, va_is_canonical, vpn_is_canonical, Riscv64PTEFlags, Riscv64PTImpl};

#[test]
fn flag_set_operations() {
    let mut f = PTEFlags::empty();
    assert_eq!(f.bits(), 0);
    f.insert(PTEFlags { bits: FLAG_R | FLAG_W });
    assert!(f.contains(PTEFlags { bits: FLAG_R }));
    assert!(!f.contains(PTEFlags { bits: FLAG_R | FLAG_X }));
    assert!(f.intersects(PTEFlags { bits: FLAG_R | FLAG_X }));
    f.remove(PTEFlags { bits: FLAG_W });
    assert_eq!(f.bits(), FLAG_R);
    assert_eq!(f.union(PTEFlags { bits: FLAG_G }).bits(), FLAG_R | FLAG_G);
    assert_eq!(PTEFlags::from_bits_truncate(0x1ff).bits(), 0xff);
}

#[test]
fn riscv_leaf_encoding_is_exact() {
    let e = Riscv64PTImpl::pte_new_leaf(PhysPageNum(0x80001), PTEFlags { bits: FLAG_R | FLAG_W | FLAG_D });
    assert_eq!(e.bits, 0x2000_0487);
    assert!(Riscv64PTImpl::pte_is_valid(&e));
    assert_eq!(Riscv64PTImpl::pte_to_ppn(&e), PhysPageNum(0x80001));
    assert_eq!(Riscv64PTImpl::pte_to_generic_flags(&e).bits(), FLAG_V | FLAG_R | FLAG_W | FLAG_D);
    let i = Riscv64PTImpl::pte_new_intermediate(PhysPageNum(0x80002));
    assert_eq!(i.bits, 0x2000_0801);
}

#[test]
fn riscv_flags_swap_dirty_and_global() {
    let arch = Riscv64PTEFlags::from_generic(PTEFlags { bits: FLAG_G });
    assert_eq!(arch.bits, 0x20);
    let arch = Riscv64PTEFlags::from_generic(PTEFlags { bits: FLAG_D | FLAG_A });
    assert_eq!(arch.bits, 0xc0);
    assert_eq!(Riscv64PTEFlags { bits: 0x20 }.to_generic().bits(), FLAG_G);
}

#[test]
fn riscv_every_flag_set_round_trips() {
    for f in 0u64..256 {
        let e = Riscv64PTImpl::pte_new_leaf(PhysPageNum(0x123), PTEFlags { bits: f });
        assert_eq!(Riscv64PTImpl::pte_to_generic_flags(&e).bits(), f | FLAG_V);
        assert_eq!(Riscv64PTImpl::pte_to_ppn(&e), PhysPageNum(0x123));
    }
}

#[test]
fn loongarch_leaf_encoding_is_exact() {
    let e = Loongarch64PTImpl::pte_new_leaf(PhysPageNum(0x80001), PTEFlags { bits: FLAG_R | FLAG_W });
    assert_eq!(e.bits, 0x4000_0000_8000_11b1);
    assert_eq!(Loongarch64PTImpl::pte_to_ppn(&e), PhysPageNum(0x80001));
    assert_eq!(Loongarch64PTImpl::pte_to_generic_flags(&e).bits(), FLAG_V | FLAG_R | FLAG_W);
    let user = Loongarch64PTImpl::pte_new_leaf(PhysPageNum(1), PTEFlags { bits: FLAG_R | FLAG_X | FLAG_U });
    assert_eq!(user.bits, 0x10bd);
    let i = Loongarch64PTImpl::pte_new_intermediate(PhysPageNum(0x80002));
    assert_eq!(i.bits, 0x8000_20b1);
}

#[test]
fn loongarch_decodes_inverted_bits() {
    let e = PageTableEntry { bits: 0x2000_0000_0000_0001 };
    assert_eq!(Loongarch64PTImpl::pte_to_generic_flags(&e).bits(), FLAG_V | FLAG_X);
    let invalid = PageTableEntry { bits: 0x0000_0000_0000_0100 };
    assert_eq!(Loongarch64PTImpl::pte_to_generic_flags(&invalid).bits(), 0);
    assert!(!Loongarch64PTImpl::pte_is_valid(&invalid));
    assert_eq!(Loongarch64PTImpl::pte_to_arch_flags(&PageTableEntry { bits: 0xe000_0000_1234_5fff }).bits, 0xe000_0000_0000_0fff);
    assert_eq!(Loongarch64PTEFlags { bits: 0x4d }.to_generic().bits(), FLAG_V | FLAG_R | FLAG_U | FLAG_G | FLAG_X);
}

#[test]
fn loongarch_every_flag_set_round_trips() {
    for f in 0u64..256 {
        let e = Loongarch64PTImpl::pte_new_leaf(PhysPageNum(0x77), PTEFlags { bits: f });
        assert_eq!(Loongarch64PTImpl::pte_to_generic_flags(&e).bits(), f | FLAG_V);
        assert_eq!(Loongarch64PTImpl::pte_to_ppn(&e), PhysPageNum(0x77));
    }
}

#[test]
fn loongarch_accessed_uses_software_bit() {
    let e = Loongarch64PTImpl::pte_new_leaf(PhysPageNum(1), PTEFlags { bits: FLAG_R | FLAG_A });
    assert_eq!(e.bits, 0x4000_0000_0000_12b1);
    assert_eq!(Loongarch64PTImpl::pte_to_generic_flags(&e).bits(), FLAG_V | FLAG_R | FLAG_A);
}

#[test]
fn entry_accessors_follow_the_format() {
    let e = PageTableEntry::new::<Riscv64PTImpl>(PhysPageNum(0x42), PTEFlags { bits: FLAG_R });
    assert!(e.is_valid::<Riscv64PTImpl>());
    assert_eq!(e.ppn::<Riscv64PTImpl>(), PhysPageNum(0x42));
    assert_eq!(e.flags::<Riscv64PTImpl>().bits(), FLAG_V | FLAG_R);
    assert!(!PageTableEntry::empty().is_valid::<Loongarch64PTImpl>());
    assert_eq!(PageTableEntry::empty().bits, 0);
}

#[test]
fn geometry_and_tokens() {
    assert_eq!(Riscv64PTImpl::page_table_levels(), 3);
    assert_eq!(Loongarch64PTImpl::page_table_levels(), 3);
    assert_eq!(Riscv64PTImpl::token_from_ppn(PhysPageNum(0x80000)), 0x8000_0000_0008_0000);
    assert_eq!(Riscv64PTImpl::ppn_from_token(0x8000_0000_0008_0000), PhysPageNum(0x80000));
    assert_eq!(Loongarch64PTImpl::token_from_ppn(PhysPageNum(0x90000)), 0x9000_0000);
    assert_eq!(Loongarch64PTImpl::ppn_from_token(0x9000_0000), PhysPageNum(0x90000));
    assert_eq!(Riscv64PTImpl::va_to_vpn(VirtAddr(0x1fff)), VirtPageNum(1));
    assert_eq!(Loongarch64PTImpl::ppn_to_pa(PhysPageNum(3)), PhysAddr(0x3000));
    assert_eq!(Riscv64PTImpl::vpn_to_va(VirtPageNum(3)), VirtAddr(0x3000));
}

#[test]
fn address_windows() {
    assert!(va_is_canonical(0x3f_ffff_ffff));
    assert!(!va_is_canonical(0x40_0000_0000));
    assert!(va_is_canonical(0xffff_ffc0_0000_0000));
    assert!(!va_is_canonical(0xffff_ff80_0000_0000));
    assert_eq!(va_from_usize(0xffff_0000_1234_5678), VirtAddr(0x1234_5678));
}

#[test]
fn std_conversions_match_the_named_ones() {
    let g: PTEFlags = Riscv64PTEFlags { bits: 0x20 }.into();
    assert_eq!(g.bits(), FLAG_G);
    let r: Riscv64PTEFlags = PTEFlags { bits: FLAG_D }.into();
    assert_eq!(r.bits, 0x80);
    let l: Loongarch64PTEFlags = PTEFlags { bits: FLAG_R | FLAG_W }.into();
    assert_eq!(l.bits, 0x4000_0000_0000_01b1);
    assert_eq!(PTEFlags::from(l).bits(), FLAG_V | FLAG_R | FLAG_W);
}

#[test]
fn page_walker_registers_follow_level_count() {
    assert_eq!(ptwalker_config(3), (0x13e4_d52c, 0));
    assert_eq!(ptwalker_config(4), (0x13e4_d52c, 0x267));
    assert_eq!(ptwalker_config(2), (0x4d52c, 0));
    assert_eq!(ptwalker_config(1), (0x12c, 0));
}

#[test]
fn raw_values_convert_per_architecture() {
    assert_eq!(ppn_from_usize(0x8_0000), PhysPageNum(0x8_0000));
    assert!(vpn_is_canonical(0x3ff_ffff));
    assert!(!vpn_is_canonical(0x400_0000));
    assert!(vpn_is_canonical(0xf_ffff_fc00_0000));
    assert_eq!(pa_from_usize(0x9000_0000_8000_1234), PhysAddr(0x8000_1234));
    assert_eq!(la_ppn_from_usize(0xff_0000_0001), PhysPageNum(0xf_0000_0001));
    assert_eq!(vpn_from_usize(0x12_3456_789a), VirtPageNum(0x2_3456_789a));
}

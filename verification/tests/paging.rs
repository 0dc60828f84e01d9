use kernel_vm::bootabi::{ByteSpan, MemMapFlags};
use kernel_vm::mmu::{
    AddressSpace, MapFlags, PageSize, PhysAddr, ALL_FLAGS, EXEC, GLOBAL, READ, UNCACHED, USER,
    WRITE,
};
use kernel_vm::paging::{
    aligned_4k, flags_to_pte, is_canonical, pd_index, pdpt_index, pml4_index, pt_index, ADDR_MASK,
    ENTRY_COUNT, KERNEL_PML4_START, PAGE_SIZE, PTE_G, PTE_NX, PTE_P, PTE_PCD, PTE_PS, PTE_PWT,
    PTE_U, PTE_W,
};
use kernel_vm::phys_mem::PhysMemory;

fn flags(bits: u32) -> MapFlags {
    MapFlags::from_bits_truncate(bits)
}

#[test]
fn aligned_4k_accepts_page_multiples() {
    assert!(aligned_4k(0));
    assert!(aligned_4k(0x2000));
    assert!(aligned_4k(0xffff_ffff_ffff_f000));
    assert!(!aligned_4k(0x1001));
    assert!(!aligned_4k(0xfff));
    assert!(!aligned_4k(0x800));
}

#[test]
fn canonical_addresses_are_the_two_outer_halves() {
    assert!(is_canonical(0));
    assert!(is_canonical(0x0000_7fff_ffff_ffff));
    assert!(!is_canonical(0x0000_8000_0000_0000));
    assert!(!is_canonical(0x0001_0000_0000_0000));
    assert!(!is_canonical(0x8000_0000_0000_0000));
    assert!(!is_canonical(0xffff_7fff_ffff_ffff));
    assert!(is_canonical(0xffff_8000_0000_0000));
    assert!(is_canonical(0xffff_ffff_ffff_ffff));
    // bit 47 set with a clean upper part
    assert!(!is_canonical(0x0000_8000_0000_1000));
    // upper part set with bit 47 clear
    assert!(!is_canonical(0xffff_0000_0000_0000));
}

#[test]
fn indices_are_the_four_nine_bit_slices() {
    let v = 0x0000_7f12_3456_7abcu64;
    assert_eq!(pml4_index(v), 0xfe);
    assert_eq!(pdpt_index(v), 0x48);
    assert_eq!(pd_index(v), 0x1a2);
    assert_eq!(pt_index(v), 0x167);
    assert_eq!(pml4_index(0xffff_8000_0000_0000), 256);
    assert_eq!(pml4_index(0xffff_ffff_ffff_ffff), 511);
    assert_eq!(pt_index(0xffff_ffff_ffff_ffff), 511);
    assert_eq!(pt_index(0x1000), 1);
    assert_eq!(pd_index(0x20_0000), 1);
    assert_eq!(pdpt_index(0x4000_0000), 1);
    assert_eq!(pml4_index(0x80_0000_0000), 1);
}

#[test]
fn layout_constants() {
    assert_eq!(PAGE_SIZE, 4096);
    assert_eq!(ENTRY_COUNT, 512);
    assert_eq!(KERNEL_PML4_START, 256);
    assert_eq!(ADDR_MASK, ((1u64 << 52) - 1) & !0xfff);
    assert_eq!(PTE_P, 1 << 0);
    assert_eq!(PTE_W, 1 << 1);
    assert_eq!(PTE_U, 1 << 2);
    assert_eq!(PTE_PWT, 1 << 3);
    assert_eq!(PTE_PCD, 1 << 4);
    assert_eq!(PTE_PS, 1 << 7);
    assert_eq!(PTE_G, 1 << 8);
    assert_eq!(PTE_NX, 1 << 63);
}

#[test]
fn flags_to_pte_follows_the_table() {
    assert_eq!(flags_to_pte(flags(0), false), 0x1);
    assert_eq!(flags_to_pte(flags(READ), false), 0x1);
    assert_eq!(flags_to_pte(flags(WRITE), false), 0x3);
    assert_eq!(flags_to_pte(flags(USER), false), 0x5);
    assert_eq!(flags_to_pte(flags(GLOBAL), false), 0x101);
    assert_eq!(flags_to_pte(flags(UNCACHED), false), 0x19);
    assert_eq!(flags_to_pte(flags(EXEC), false), 0x1);
    assert_eq!(flags_to_pte(flags(EXEC), true), 0x1);
    assert_eq!(flags_to_pte(flags(0), true), 0x8000_0000_0000_0001);
    assert_eq!(flags_to_pte(flags(WRITE | USER), true), 0x8000_0000_0000_0007);
    assert_eq!(flags_to_pte(flags(ALL_FLAGS), true), 0x11f);
}

#[test]
fn map_flags_behave_as_a_set() {
    assert_eq!(MapFlags::empty().bits(), 0);
    assert!(MapFlags::empty().is_empty());
    assert_eq!(MapFlags::all().bits(), 0x3f);
    assert_eq!(MapFlags::from_bits(WRITE | EXEC).unwrap().bits(), 0x6);
    assert!(MapFlags::from_bits(0x40).is_none());
    assert!(MapFlags::from_bits(0x8000_0001).is_none());
    assert_eq!(MapFlags::from_bits_truncate(0xffff_ffc1).bits(), 0x1);
    let rw = flags(READ).union(flags(WRITE));
    assert_eq!(rw.bits(), 0x3);
    assert!(rw.contains(flags(READ)));
    assert!(rw.contains(flags(READ | WRITE)));
    assert!(!rw.contains(flags(EXEC)));
    assert!(!rw.contains(flags(READ | EXEC)));
    assert!(rw.contains(MapFlags::empty()));
    assert_eq!(READ, 1 << 0);
    assert_eq!(WRITE, 1 << 1);
    assert_eq!(EXEC, 1 << 2);
    assert_eq!(USER, 1 << 3);
    assert_eq!(GLOBAL, 1 << 4);
    assert_eq!(UNCACHED, 1 << 5);
}

#[test]
fn handles_carry_their_identity() {
    let h = AddressSpace::from_ptr(17);
    assert_eq!(h.as_ptr(), 17);
    assert_eq!(h, AddressSpace::from_ptr(17));
    assert_ne!(h, AddressSpace::from_ptr(18));
    assert_eq!(PageSize::size_4k().0, 4096);
}

#[test]
fn byte_spans_and_memory_map_flags() {
    assert!(ByteSpan::empty().is_empty());
    assert_eq!(ByteSpan::empty(), ByteSpan { ptr: 0, len: 0, _pad: 0 });
    assert!(ByteSpan { ptr: 0, len: 4, _pad: 0 }.is_empty());
    assert!(ByteSpan { ptr: 0x1000, len: 0, _pad: 0 }.is_empty());
    assert!(!ByteSpan { ptr: 0x1000, len: 4, _pad: 0 }.is_empty());
    assert_eq!(MemMapFlags::NONE.bits(), 0);
    assert_eq!(MemMapFlags::TRUNCATED.bits(), 1);
}

#[test]
fn memory_reads_what_was_written() {
    let mut mem = PhysMemory::new(4);
    assert_eq!(mem.frame_count(), 4);
    assert!(mem.contains_frame(0));
    assert!(mem.contains_frame(0x3000));
    assert!(!mem.contains_frame(0x4000));
    assert!(!mem.contains_frame(0x1008));
    assert!(!PhysMemory::new(0).contains_frame(0));
    assert_eq!(mem.read_entry(PhysAddr(0x2000), 511), 0);
    mem.write_entry(PhysAddr(0x2000), 511, 7);
    mem.write_entry(PhysAddr(0x2000), 3, 9);
    assert_eq!(mem.read_entry(PhysAddr(0x2000), 511), 7);
    assert_eq!(mem.read_entry(PhysAddr(0x3000), 0), 0);
    mem.copy_entries(PhysAddr(0x2000), PhysAddr(0x1000), 256, 256);
    assert_eq!(mem.read_entry(PhysAddr(0x1000), 511), 7);
    assert_eq!(mem.read_entry(PhysAddr(0x1000), 3), 0);
    mem.zero_frame(PhysAddr(0x2000));
    assert_eq!(mem.read_entry(PhysAddr(0x2000), 511), 0);
    assert_eq!(mem.read_entry(PhysAddr(0x2000), 3), 0);
    assert_eq!(mem.read_entry(PhysAddr(0x1000), 511), 7);
}

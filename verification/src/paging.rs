//! Bit-level layout of 4-level paging with 4 KiB pages: address checks, table
//! indices and page-table-entry fields.

use vstd::prelude::*;

use crate::mmu::{MapFlags, EXEC, GLOBAL, UNCACHED, USER, WRITE};

verus! {

/// Size of one page and of one frame, in bytes.
pub const PAGE_SIZE: u64 = 4096;

/// Number of entries in one page table.
pub const ENTRY_COUNT: usize = 512;

/// First root-table index of the kernel half of every address space.
pub const KERNEL_PML4_START: usize = 256;

/// The physical frame-address field of an entry: bits 12 to 51.
pub const ADDR_MASK: u64 = 0x000f_ffff_ffff_f000;

/// Entry bit 0: present.
pub const PTE_P: u64 = 0x1;

/// Entry bit 1: writable.
pub const PTE_W: u64 = 0x2;

/// Entry bit 2: user-accessible.
pub const PTE_U: u64 = 0x4;

/// Entry bit 3: write-through.
pub const PTE_PWT: u64 = 0x8;

/// Entry bit 4: cache-disable.
pub const PTE_PCD: u64 = 0x10;

/// Entry bit 7, at non-leaf levels: the entry maps a large page.
pub const PTE_PS: u64 = 0x80;

/// Entry bit 8: global.
pub const PTE_G: u64 = 0x100;

/// Entry bit 63: no-execute.
pub const PTE_NX: u64 = 0x8000_0000_0000_0000;

/// Whether `x` is a multiple of the page size.
pub open spec fn spec_aligned_4k(x: u64) -> bool {
    x % 4096 == 0
}

/// Whether `x` is a multiple of 4096.
#[verifier::when_used_as_spec(spec_aligned_4k)]
pub fn aligned_4k(x: u64) -> (r: bool)
    ensures
        r == spec_aligned_4k(x),
{
    assert(x & 4095 == x % 4096) by (bit_vector);
    (x & (PAGE_SIZE - 1)) == 0
}

/// Whether bits 48 to 63 of `addr` all equal bit 47: the address lies in the
/// lowest or in the highest 128 TiB.
pub open spec fn spec_is_canonical(addr: u64) -> bool {
    addr < 0x0000_8000_0000_0000 || addr >= 0xffff_8000_0000_0000
}

/// Whether `addr` is canonical.
#[verifier::when_used_as_spec(spec_is_canonical)]
pub fn is_canonical(addr: u64) -> (r: bool)
    ensures
        r == spec_is_canonical(addr),
{
    let sign: u64 = (addr >> 47) & 1;
    let upper: u64 = addr >> 48;
    assert(((addr >> 47) & 1 == 0 && addr >> 48 == 0) <==> addr < 0x0000_8000_0000_0000)
        by (bit_vector);
    assert(((addr >> 47) & 1 != 0 && addr >> 48 == 0xffff) <==> addr >= 0xffff_8000_0000_0000)
        by (bit_vector);
    if sign == 0 {
        upper == 0
    } else {
        upper == 0xffff
    }
}

/// Bits 39 to 47 of `v`: the index into the root table.
pub open spec fn spec_pml4_index(v: u64) -> int {
    ((v >> 39) & 0x1ff) as int
}

/// Bits 30 to 38 of `v`: the index into the level-3 table.
pub open spec fn spec_pdpt_index(v: u64) -> int {
    ((v >> 30) & 0x1ff) as int
}

/// Bits 21 to 29 of `v`: the index into the level-2 table.
pub open spec fn spec_pd_index(v: u64) -> int {
    ((v >> 21) & 0x1ff) as int
}

/// Bits 12 to 20 of `v`: the index into the level-1 table.
pub open spec fn spec_pt_index(v: u64) -> int {
    ((v >> 12) & 0x1ff) as int
}

/// Bits 12 to 47 of `v`: the number of the virtual page, which is all that a
/// table walk reads of an address.
pub open spec fn vpn(v: u64) -> u64 {
    (v >> 12) & 0xf_ffff_ffff
}

/// The lowest address of the virtual page with number `n`.
pub open spec fn page_base(n: u64) -> u64 {
    n << 12
}

/// The four indices are below 512.
pub proof fn lemma_index_bounds(v: u64)
    ensures
        spec_pml4_index(v) < 512,
        spec_pdpt_index(v) < 512,
        spec_pd_index(v) < 512,
        spec_pt_index(v) < 512,
{
    assert((v >> 39) & 0x1ff < 512) by (bit_vector);
    assert((v >> 30) & 0x1ff < 512) by (bit_vector);
    assert((v >> 21) & 0x1ff < 512) by (bit_vector);
    assert((v >> 12) & 0x1ff < 512) by (bit_vector);
}

/// Two addresses have the same page number exactly when their four table
/// indices agree.
pub proof fn lemma_vpn_indices(u: u64, v: u64)
    ensures
        vpn(u) == vpn(v) <==> (spec_pml4_index(u) == spec_pml4_index(v) && spec_pdpt_index(u)
            == spec_pdpt_index(v) && spec_pd_index(u) == spec_pd_index(v) && spec_pt_index(u)
            == spec_pt_index(v)),
{
    assert(((u >> 12) & 0xf_ffff_ffff == (v >> 12) & 0xf_ffff_ffff) <==> ((u >> 39) & 0x1ff == (v
        >> 39) & 0x1ff && (u >> 30) & 0x1ff == (v >> 30) & 0x1ff && (u >> 21) & 0x1ff == (v >> 21)
        & 0x1ff && (u >> 12) & 0x1ff == (v >> 12) & 0x1ff)) by (bit_vector);
    lemma_index_bounds(u);
    lemma_index_bounds(v);
}

/// The base address of a page has that page's number.
pub proof fn lemma_page_base_vpn(v: u64)
    ensures
        vpn(page_base(vpn(v))) == vpn(v),
        vpn(v) < 0x10_0000_0000,
{
    assert(((((v >> 12) & 0xf_ffff_ffff) << 12) >> 12) & 0xf_ffff_ffff == (v >> 12)
        & 0xf_ffff_ffff) by (bit_vector);
    assert((v >> 12) & 0xf_ffff_ffff < 0x10_0000_0000) by (bit_vector);
}

/// A page number below 2^36 is the number of its own base address.
pub proof fn lemma_vpn_of_page_base(n: u64)
    requires
        n < 0x10_0000_0000,
    ensures
        vpn(page_base(n)) == n,
{
    assert(((n << 12) >> 12) & 0xf_ffff_ffff == n) by (bit_vector)
        requires
            n < 0x10_0000_0000,
    ;
}

/// Whether the virtual page with number `n` lies in the kernel half: the
/// half whose root-table index is 256 or more.
pub open spec fn is_kernel_page(n: u64) -> bool {
    n >= 0x8_0000_0000
}

/// The pages of the kernel half are those with a root-table index of 256 or
/// more.
pub proof fn lemma_kernel_half(v: u64)
    ensures
        spec_pml4_index(v) >= 256 <==> is_kernel_page(vpn(v)),
{
    assert(((v >> 39) & 0x1ff) >= 256 <==> ((v >> 12) & 0xf_ffff_ffff) >= 0x8_0000_0000)
        by (bit_vector);
}

/// Index into the root table for `v`.
pub fn pml4_index(v: u64) -> (r: usize)
    ensures
        r == spec_pml4_index(v),
        r < 512,
{
    proof {
        lemma_index_bounds(v);
    }
    ((v >> 39) & 0x1ff) as usize
}

/// Index into the level-3 table for `v`.
pub fn pdpt_index(v: u64) -> (r: usize)
    ensures
        r == spec_pdpt_index(v),
        r < 512,
{
    proof {
        lemma_index_bounds(v);
    }
    ((v >> 30) & 0x1ff) as usize
}

/// Index into the level-2 table for `v`.
pub fn pd_index(v: u64) -> (r: usize)
    ensures
        r == spec_pd_index(v),
        r < 512,
{
    proof {
        lemma_index_bounds(v);
    }
    ((v >> 21) & 0x1ff) as usize
}

/// Index into the level-1 table for `v`.
pub fn pt_index(v: u64) -> (r: usize)
    ensures
        r == spec_pt_index(v),
        r < 512,
{
    proof {
        lemma_index_bounds(v);
    }
    ((v >> 12) & 0x1ff) as usize
}

/// Whether the present bit of entry `e` is set.
pub open spec fn pte_present(e: u64) -> bool {
    e & PTE_P != 0
}

/// The frame address that entry `e` holds.
pub open spec fn pte_addr(e: u64) -> u64 {
    e & ADDR_MASK
}

/// The frame-address field is frame-aligned and below 2^52.
pub proof fn lemma_pte_addr(e: u64)
    ensures
        pte_addr(e) % 4096 == 0,
        pte_addr(e) < 0x10_0000_0000_0000,
        pte_addr(pte_addr(e)) == pte_addr(e),
{
    assert((e & 0x000f_ffff_ffff_f000) % 4096 == 0) by (bit_vector);
    assert((e & 0x000f_ffff_ffff_f000) < 0x10_0000_0000_0000) by (bit_vector);
    assert((e & 0x000f_ffff_ffff_f000) & 0x000f_ffff_ffff_f000 == e & 0x000f_ffff_ffff_f000)
        by (bit_vector);
}

/// The entry that points to a next-level table at frame address `a`:
/// present and writable, and user-accessible when `user` is set.
pub open spec fn table_entry(a: u64, user: bool) -> u64 {
    (a & ADDR_MASK) | (if user {
        PTE_P | PTE_W | PTE_U
    } else {
        PTE_P | PTE_W
    })
}

/// An entry that points to a next-level table is present and holds the
/// table's frame address.
pub proof fn lemma_table_entry(a: u64, user: bool)
    ensures
        pte_present(table_entry(a, user)),
        pte_addr(table_entry(a, user)) == pte_addr(a),
{
    assert(((a & 0x000f_ffff_ffff_f000) | 0x7u64) & 0x1 != 0 && ((a & 0x000f_ffff_ffff_f000)
        | 0x7u64) & 0x000f_ffff_ffff_f000 == a & 0x000f_ffff_ffff_f000 && ((a
        & 0x000f_ffff_ffff_f000) | 0x3u64) & 0x1 != 0 && ((a & 0x000f_ffff_ffff_f000) | 0x3u64)
        & 0x000f_ffff_ffff_f000 == a & 0x000f_ffff_ffff_f000 && (0x1u64 | 0x2u64 | 0x4u64) == 0x7u64
        && (0x1u64 | 0x2u64) == 0x3u64) by (bit_vector);
}

/// The hardware bits of a leaf entry for the mapping intent `flags`.
///
/// Present is always set. Writable, user and global follow their flag.
/// No-execute is set when EXEC is missing and the processor's no-execute
/// feature is on. UNCACHED sets both cache-disable and write-through.
pub open spec fn spec_flags_to_pte(flags: MapFlags, nxe_enabled: bool) -> u64 {
    PTE_P | (if flags.has(WRITE) {
        PTE_W
    } else {
        0
    }) | (if flags.has(USER) {
        PTE_U
    } else {
        0
    }) | (if flags.has(GLOBAL) {
        PTE_G
    } else {
        0
    }) | (if !flags.has(EXEC) && nxe_enabled {
        PTE_NX
    } else {
        0
    }) | (if flags.has(UNCACHED) {
        PTE_PCD | PTE_PWT
    } else {
        0
    })
}

/// A leaf entry made of a frame address and the hardware bits of a mapping
/// intent is present and holds that frame address.
pub proof fn lemma_leaf_bits(a: u64, flags: MapFlags, nxe_enabled: bool)
    ensures
        pte_present(a | spec_flags_to_pte(flags, nxe_enabled)),
        pte_addr(a | spec_flags_to_pte(flags, nxe_enabled)) == pte_addr(a),
        pte_addr(spec_flags_to_pte(flags, nxe_enabled)) == 0,
{
    let w: u64 = if flags.has(WRITE) {
        PTE_W
    } else {
        0
    };
    let u: u64 = if flags.has(USER) {
        PTE_U
    } else {
        0
    };
    let g: u64 = if flags.has(GLOBAL) {
        PTE_G
    } else {
        0
    };
    let nx: u64 = if !flags.has(EXEC) && nxe_enabled {
        PTE_NX
    } else {
        0
    };
    let c: u64 = if flags.has(UNCACHED) {
        PTE_PCD | PTE_PWT
    } else {
        0
    };
    let b: u64 = 0x1 | w | u | g | nx | c;
    assert(b == spec_flags_to_pte(flags, nxe_enabled));
    assert((a | b) & 0x1 != 0 && (a | b) & 0x000f_ffff_ffff_f000 == a & 0x000f_ffff_ffff_f000 && b
        & 0x000f_ffff_ffff_f000 == 0) by (bit_vector)
        requires
            b == 0x1 | w | u | g | nx | c,
            w == 0x2 || w == 0,
            u == 0x4 || u == 0,
            g == 0x100 || g == 0,
            nx == 0x8000_0000_0000_0000 || nx == 0,
            c == 0x10 | 0x8 || c == 0,
    ;
}

/// Translates a mapping intent into the hardware bits of a leaf entry.
#[verifier::when_used_as_spec(spec_flags_to_pte)]
pub fn flags_to_pte(flags: MapFlags, nxe_enabled: bool) -> (r: u64)
    ensures
        r == spec_flags_to_pte(flags, nxe_enabled),
{
    let bits: u32 = flags.bits();
    let w: u64 = if bits & WRITE == WRITE {
        PTE_W
    } else {
        0
    };
    let u: u64 = if bits & USER == USER {
        PTE_U
    } else {
        0
    };
    let g: u64 = if bits & GLOBAL == GLOBAL {
        PTE_G
    } else {
        0
    };
    let nx: u64 = if !(bits & EXEC == EXEC) && nxe_enabled {
        PTE_NX
    } else {
        0
    };
    let c: u64 = if bits & UNCACHED == UNCACHED {
        PTE_PCD | PTE_PWT
    } else {
        0
    };
    PTE_P | w | u | g | nx | c
}

} // verus!

//! What follows from the contracts of the mapping operations and of the
//! frame source when they are used one after another.
//!
//! The operations say how they change the view of an address space, and
//! translation says what it reads from a view. The laws here join the two.

use vstd::prelude::*;

use crate::boot_alloc::{BootPtAlloc, MAX_FREE_FRAMES};
use crate::mmu::{MapFlags, PhysAddr, TranslateError, EXEC, GLOBAL, UNCACHED, USER, WRITE};
use crate::paging::{
    lemma_leaf_bits, lemma_pte_addr, pte_addr, pte_present, spec_aligned_4k, spec_flags_to_pte,
    spec_is_canonical, vpn, PTE_G, PTE_NX, PTE_PCD, PTE_PWT, PTE_U, PTE_W,
};
use crate::phys_mem::{entry, frame_in, frame_is_zero, word_index, zeroed};
use crate::tables::{is_root, lemma_new_root, tables_wf, with_new_root, TableTag};
use crate::walk::translate_spec;
use crate::x86_mmu::{X86Mmu, MAX_ADDRESS_SPACES};

verus! {

/// The addresses of one page: adding an offset below the page size to a
/// page-aligned address stays in the page, keeps the address canonical and
/// makes the offset the page offset.
pub proof fn lemma_within_page(v: u64, k: u64)
    requires
        spec_aligned_4k(v),
        k < 4096,
    ensures
        v + k <= u64::MAX,
        vpn((v + k) as u64) == vpn(v),
        spec_is_canonical((v + k) as u64) == spec_is_canonical(v),
        ((v + k) as u64) & 0xfff == k,
{
    assert(v + k <= u64::MAX) by {
        assert(v <= 0xffff_ffff_ffff_f000) by (bit_vector)
            requires
                v % 4096 == 0,
        ;
    }
    let w: u64 = (v + k) as u64;
    assert(w == v | k) by (bit_vector)
        requires
            v % 4096 == 0,
            k < 4096,
            w == v + k,
    ;
    assert(((v | k) >> 12) & 0xf_ffff_ffff == (v >> 12) & 0xf_ffff_ffff && (v | k) & 0xfff == k
        && ((v
        | k) < 0x0000_8000_0000_0000 <==> v < 0x0000_8000_0000_0000) && ((v | k)
        >= 0xffff_8000_0000_0000 <==> v >= 0xffff_8000_0000_0000)) by (bit_vector)
        requires
            v % 4096 == 0,
            k < 4096,
    ;
}

/// After a page is mapped, translating any address of the page gives the
/// same offset in the target frame.
///
/// `view` is the view before the mapping, and the view after it is the one
/// that `map_4k` promises on success. The target must be an address that the
/// frame-address field of an entry can hold, that is, below 2^52.
pub proof fn law_map_then_translate(
    view: Map<u64, u64>,
    vaddr: u64,
    paddr: u64,
    flags: MapFlags,
    nxe_enabled: bool,
    k: u64,
)
    requires
        spec_aligned_4k(vaddr),
        spec_aligned_4k(paddr),
        spec_is_canonical(vaddr),
        paddr < 0x10_0000_0000_0000,
        k < 4096,
    ensures
        translate_spec(
            view.insert(vpn(vaddr), pte_addr(paddr) | spec_flags_to_pte(flags, nxe_enabled)),
            (vaddr + k) as u64,
        ) == Ok::<PhysAddr, TranslateError>(PhysAddr((paddr + k) as u64)),
{
    lemma_within_page(vaddr, k);
    lemma_leaf_bits(pte_addr(paddr), flags, nxe_enabled);
    lemma_pte_addr(paddr);
    let e = pte_addr(paddr) | spec_flags_to_pte(flags, nxe_enabled);
    assert(pte_addr(e) == paddr) by {
        assert(paddr & 0x000f_ffff_ffff_f000 == paddr) by (bit_vector)
            requires
                paddr % 4096 == 0,
                paddr < 0x10_0000_0000_0000,
        ;
    }
    assert(paddr | k == paddr + k) by (bit_vector)
        requires
            paddr % 4096 == 0,
            k < 4096,
    ;
}

/// Mapping a page leaves the translation of every address outside the page
/// as it was.
pub proof fn law_map_keeps_others(view: Map<u64, u64>, vaddr: u64, e: u64, u: u64)
    requires
        vpn(u) != vpn(vaddr),
    ensures
        translate_spec(view.insert(vpn(vaddr), e), u) == translate_spec(view, u),
{
}

/// After a page is unmapped, translating a canonical address of the page
/// fails with `NotMapped`.
pub proof fn law_unmap_then_translate(view: Map<u64, u64>, vaddr: u64, k: u64)
    requires
        spec_aligned_4k(vaddr),
        spec_is_canonical(vaddr),
        k < 4096,
    ensures
        translate_spec(view.remove(vpn(vaddr)), (vaddr + k) as u64) == Err::<
            PhysAddr,
            TranslateError,
        >(TranslateError::NotMapped),
{
    lemma_within_page(vaddr, k);
}

/// Changing the protection of a mapped page changes no translation: the new
/// entry holds the frame address of the old one.
pub proof fn law_protect_keeps_translation(
    view: Map<u64, u64>,
    vaddr: u64,
    flags: MapFlags,
    nxe_enabled: bool,
    u: u64,
)
    requires
        view.dom().contains(vpn(vaddr)),
    ensures
        translate_spec(
            view.insert(
                vpn(vaddr),
                pte_addr(view[vpn(vaddr)]) | spec_flags_to_pte(flags, nxe_enabled),
            ),
            u,
        ) == translate_spec(view, u),
{
    let old_entry = view[vpn(vaddr)];
    lemma_leaf_bits(pte_addr(old_entry), flags, nxe_enabled);
    lemma_pte_addr(old_entry);
}

/// The permissions that the hardware reads from a leaf entry made for
/// `flags`: writable, user and global follow their flag, both cache bits
/// follow UNCACHED, and no-execute is set exactly when EXEC is missing and
/// the no-execute feature is on. So a change of protection shows in the
/// entry exactly as the new flags ask.
pub proof fn law_leaf_permissions(a: u64, flags: MapFlags, nxe_enabled: bool)
    requires
        pte_addr(a) == a,
    ensures
        ({
            let e = a | spec_flags_to_pte(flags, nxe_enabled);
            &&& pte_present(e)
            &&& pte_addr(e) == a
            &&& (e & PTE_W != 0) == flags.has(WRITE)
            &&& (e & PTE_U != 0) == flags.has(USER)
            &&& (e & PTE_G != 0) == flags.has(GLOBAL)
            &&& (e & PTE_PCD != 0) == flags.has(UNCACHED)
            &&& (e & PTE_PWT != 0) == flags.has(UNCACHED)
            &&& (e & PTE_NX != 0) == (!flags.has(EXEC) && nxe_enabled)
        }),
{
    lemma_leaf_bits(a, flags, nxe_enabled);
    let w: u64 = if flags.has(WRITE) {
        PTE_W
    } else {
        0
    };
    let u: u64 = if flags.has(USER) {
        PTE_U
    } else {
        0
    };
    let g: u64 = if flags.has(GLOBAL) {
        PTE_G
    } else {
        0
    };
    let nx: u64 = if !flags.has(EXEC) && nxe_enabled {
        PTE_NX
    } else {
        0
    };
    let c: u64 = if flags.has(UNCACHED) {
        PTE_PCD | PTE_PWT
    } else {
        0
    };
    let e: u64 = a | (0x1 | w | u | g | nx | c);
    assert(e == a | spec_flags_to_pte(flags, nxe_enabled));
    assert((e & 0x2 != 0) == (w != 0) && (e & 0x4 != 0) == (u != 0) && (e & 0x100 != 0) == (g != 0)
        && (e & 0x10 != 0) == (c != 0) && (e & 0x8 != 0) == (c != 0) && (e & 0x8000_0000_0000_0000
        != 0) == (nx != 0)) by (bit_vector)
        requires
            e == a | (0x1 | w | u | g | nx | c),
            a & 0x000f_ffff_ffff_f000 == a,
            w == 0x2 || w == 0,
            u == 0x4 || u == 0,
            g == 0x100 || g == 0,
            nx == 0x8000_0000_0000_0000 || nx == 0,
            c == 0x10 | 0x8 || c == 0,
    ;
    assert(0x10u64 | 0x8u64 != 0) by (bit_vector);
}

/// A non-canonical address translates in no view.
pub proof fn law_noncanonical_never_translates(view: Map<u64, u64>, vaddr: u64)
    requires
        !spec_is_canonical(vaddr),
    ensures
        translate_spec(view, vaddr) == Err::<PhysAddr, TranslateError>(
            TranslateError::InvalidAddress,
        ),
{
}

/// After an address space was made with the frame at `p` as its root, every
/// entry of the kernel half of the root is the entry of the kernel's root at
/// the same index, and the user half is empty.
///
/// `m` is memory before, `kroot` the kernel's root; memory after is the one
/// that `address_space_new` promises on success.
pub proof fn law_new_root_shares_kernel_half(
    m: Seq<u64>,
    tags: Map<u64, TableTag>,
    kroot: u64,
    p: u64,
    k: int,
)
    requires
        tables_wf(m, tags),
        is_root(tags, kroot),
        !tags.dom().contains(p),
        frame_in(m, p),
        0 <= k < 512,
    ensures
        k >= 256 ==> entry(with_new_root(m, kroot, p), p, k) == entry(
            with_new_root(m, kroot, p),
            kroot,
            k,
        ),
        k >= 256 ==> entry(with_new_root(m, kroot, p), kroot, k) == entry(m, kroot, k),
        k < 256 ==> entry(with_new_root(m, kroot, p), p, k) == 0,
{
    lemma_new_root(m, tags, kroot, p);
    let m2 = with_new_root(m, kroot, p);
    assert(entry(m2, kroot, k) == entry(m, kroot, k));
    if k >= 256 {
        assert(entry(m2, p, k) == entry(m, kroot, k));
    } else {
        assert(entry(m2, p, k) == 0);
    }
}

/// The registry has room for another address space exactly as long as fewer
/// than its capacity are registered. Every creation that succeeds registers
/// one more, so creations succeed up to the capacity and not beyond it,
/// provided the frame source has a frame each time.
pub proof fn law_room_up_to_capacity(mmu: X86Mmu)
    ensures
        mmu.used_slots() <= MAX_ADDRESS_SPACES,
        !mmu.registry_full() <==> mmu.used_slots() < MAX_ADDRESS_SPACES,
{
    mmu.lemma_full_is_capacity();
}

/// A frame that a frame source has just handed out reads as zeroes: memory
/// after an allocation is memory before it with that frame filled with
/// zeroes, and every word of a filled frame is zero.
pub proof fn law_allocated_frame_is_zero(m: Seq<u64>, p: u64)
    requires
        frame_in(m, p),
    ensures
        frame_is_zero(zeroed(m, p), p),
        zeroed(m, p).len() == m.len(),
        forall|w: int|
            0 <= w < m.len() && !(word_index(p, 0) <= w < word_index(p, 512)) ==> zeroed(m, p)[w]
                == m[w],
{
}

/// A frame that is handed back while the stack has room is the frame that
/// the next allocation hands out.
///
/// `before` is the frame source before the frame at `p` is handed back and
/// `after` the source afterwards, as `free_frame_4k` promises.
pub proof fn law_freed_frame_comes_next(before: BootPtAlloc, after: BootPtAlloc, p: u64)
    requires
        before.free_list().len() < MAX_FREE_FRAMES,
        after.free_list() == before.free_list().push(p),
    ensures
        after.next_frame() == Some(p),
{
}

} // verus!

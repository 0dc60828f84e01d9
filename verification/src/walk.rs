//! What a 4-level table walk reads from memory, and the view of an address
//! space that follows from it: a map from virtual page numbers to present
//! leaf entries.

use vstd::prelude::*;

use crate::mmu::{PhysAddr, TranslateError};
use crate::paging::{
    lemma_page_base_vpn, lemma_vpn_indices, page_base, pte_addr, pte_present, spec_is_canonical,
    spec_pd_index, spec_pdpt_index, spec_pml4_index, spec_pt_index, vpn,
};
use crate::phys_mem::entry;

verus! {

/// The table that entry `idx` of `table` points to, if the entry is present.
pub open spec fn next_table(m: Seq<u64>, table: u64, idx: int) -> Option<u64> {
    let e = entry(m, table, idx);
    if pte_present(e) {
        Some(pte_addr(e))
    } else {
        None
    }
}

/// The level-3 table on the walk for `v` from `root`.
pub open spec fn pdpt_of(m: Seq<u64>, root: u64, v: u64) -> Option<u64> {
    next_table(m, root, spec_pml4_index(v))
}

/// The level-2 table on the walk for `v` from `root`.
pub open spec fn pd_of(m: Seq<u64>, root: u64, v: u64) -> Option<u64> {
    match pdpt_of(m, root, v) {
        Some(t) => next_table(m, t, spec_pdpt_index(v)),
        None => None,
    }
}

/// The level-1 table on the walk for `v` from `root`.
pub open spec fn pt_of(m: Seq<u64>, root: u64, v: u64) -> Option<u64> {
    match pd_of(m, root, v) {
        Some(t) => next_table(m, t, spec_pd_index(v)),
        None => None,
    }
}

/// The present leaf entry that the walk for `v` from `root` ends in, if every
/// level of the walk is present.
pub open spec fn leaf_entry(m: Seq<u64>, root: u64, v: u64) -> Option<u64> {
    match pt_of(m, root, v) {
        Some(t) => {
            let e = entry(m, t, spec_pt_index(v));
            if pte_present(e) {
                Some(e)
            } else {
                None
            }
        },
        None => None,
    }
}

/// The address space rooted at `root`: each mapped virtual page number with
/// its leaf entry.
pub open spec fn space_view(m: Seq<u64>, root: u64) -> Map<u64, u64> {
    Map::new(
        |n: u64| n < 0x10_0000_0000 && leaf_entry(m, root, page_base(n)) is Some,
        |n: u64| leaf_entry(m, root, page_base(n)).unwrap(),
    )
}

/// The physical address that a present leaf entry `e` gives for `v`: the
/// entry's frame address with the page offset of `v`.
pub open spec fn leaf_target(e: u64, v: u64) -> u64 {
    pte_addr(e) | (v & 0xfff)
}

/// What translating `v` gives in an address space with view `view`.
pub open spec fn translate_spec(view: Map<u64, u64>, v: u64) -> Result<PhysAddr, TranslateError> {
    if !spec_is_canonical(v) {
        Err(TranslateError::InvalidAddress)
    } else if view.dom().contains(vpn(v)) {
        Ok(PhysAddr(leaf_target(view[vpn(v)], v)))
    } else {
        Err(TranslateError::NotMapped)
    }
}

/// A walk reads only the page number of an address.
pub proof fn lemma_walk_reads_vpn(m: Seq<u64>, root: u64, u: u64, v: u64)
    requires
        vpn(u) == vpn(v),
    ensures
        pdpt_of(m, root, u) == pdpt_of(m, root, v),
        pd_of(m, root, u) == pd_of(m, root, v),
        pt_of(m, root, u) == pt_of(m, root, v),
        leaf_entry(m, root, u) == leaf_entry(m, root, v),
{
    lemma_vpn_indices(u, v);
}

/// The view holds, for the page of `v`, exactly what the walk for `v` finds.
pub proof fn lemma_view_at(m: Seq<u64>, root: u64, v: u64)
    ensures
        space_view(m, root).dom().contains(vpn(v)) == (leaf_entry(m, root, v) is Some),
        leaf_entry(m, root, v) is Some ==> space_view(m, root)[vpn(v)] == leaf_entry(
            m,
            root,
            v,
        ).unwrap(),
{
    lemma_page_base_vpn(v);
    lemma_walk_reads_vpn(m, root, page_base(vpn(v)), v);
}

/// The number of tables that are missing on the walk for `v` from `root`:
/// none when the walk reaches a table of leaf entries, three when the root
/// entry is absent.
pub open spec fn missing_tables(m: Seq<u64>, root: u64, v: u64) -> int {
    if pdpt_of(m, root, v) is None {
        3
    } else if pd_of(m, root, v) is None {
        2
    } else if pt_of(m, root, v) is None {
        1
    } else {
        0
    }
}

} // verus!

//! The bookkeeping that makes page tables a forest: every frame that serves
//! as a table carries a tag with its level and its place under a root, and
//! every present entry of a non-leaf table points to a table whose tag fits.
//!
//! From the tags it follows that a walk never leaves memory, that tables of
//! different pages are different frames, and that a write to one slot changes
//! only the walks that pass through that slot.

use vstd::prelude::*;

use crate::paging::{
    is_kernel_page, lemma_index_bounds, lemma_kernel_half, lemma_page_base_vpn, lemma_vpn_indices,
    page_base, pte_addr, pte_present, spec_pd_index, spec_pdpt_index, spec_pml4_index,
    spec_pt_index, vpn, PTE_PS,
};
use crate::phys_mem::{
    copied, entry, frame_in, frame_is_zero, lemma_slots_distinct, word_index, zeroed,
};
use crate::walk::{leaf_entry, next_table, pd_of, pdpt_of, pt_of, space_view};

verus! {

/// The place of a table in the forest.
///
/// `level` is 4 for a root table and 1 for a table of leaf entries. `i4`,
/// `i3` and `i2` are the indices on the way from the root, as far as the
/// level has them. `owner` is the root of the address space that the table
/// belongs to; tables under the kernel half of a root may belong to another
/// root, which is how every address space shares the kernel's mappings.
pub struct TableTag {
    pub owner: u64,
    pub level: int,
    pub i4: int,
    pub i3: int,
    pub i2: int,
}

/// The largest memory that 52-bit physical addresses reach, in words.
pub open spec fn max_words() -> int {
    0x2_0000_0000_0000
}

/// Whether `child` is a fitting tag for the table that entry `k` of a table
/// tagged `parent` points to.
pub open spec fn child_tag_ok(parent: TableTag, k: int, child: TableTag) -> bool {
    &&& child.level == parent.level - 1
    &&& parent.level == 4 ==> child.i4 == k && (k < 256 ==> child.owner == parent.owner)
    &&& parent.level == 3 ==> child.owner == parent.owner && child.i4 == parent.i4 && child.i3
        == k
    &&& parent.level == 2 ==> child.owner == parent.owner && child.i4 == parent.i4 && child.i3
        == parent.i3 && child.i2 == k
}

/// Whether a tag is well formed for the frame `f` that carries it.
pub open spec fn tag_ok(f: u64, t: TableTag) -> bool {
    &&& 1 <= t.level <= 4
    &&& t.level == 4 ==> t.owner == f
    &&& t.level <= 3 ==> 0 <= t.i4 < 512
    &&& t.level <= 2 ==> 0 <= t.i3 < 512
    &&& t.level <= 1 ==> 0 <= t.i2 < 512
}

/// The forest invariant: tagged frames lie in memory, and present entries of
/// non-leaf tables point to tables with fitting tags.
pub open spec fn tables_wf(m: Seq<u64>, tags: Map<u64, TableTag>) -> bool {
    &&& m.len() <= max_words()
    &&& forall|f: u64| #[trigger] tags.dom().contains(f) ==> frame_in(m, f) && tag_ok(f, tags[f])
    &&& forall|f: u64, k: int|
        tags.dom().contains(f) && 0 <= k < 512 && tags[f].level > 1 && pte_present(
            #[trigger] entry(m, f, k),
        ) ==> tags.dom().contains(pte_addr(entry(m, f, k))) && child_tag_ok(
            tags[f],
            k,
            tags[pte_addr(entry(m, f, k))],
        )
}

/// Whether `r` is tagged as a root table.
pub open spec fn is_root(tags: Map<u64, TableTag>, r: u64) -> bool {
    tags.dom().contains(r) && tags[r].level == 4
}

/// An entry of all zeroes is not present.
pub proof fn lemma_zero_absent()
    ensures
        !pte_present(0),
{
    assert(0u64 & 0x1 == 0) by (bit_vector);
}

/// A frame in a memory of at most 2^52 bytes is its own frame address.
pub proof fn lemma_frame_addr(m: Seq<u64>, p: u64)
    requires
        m.len() <= max_words(),
        frame_in(m, p),
    ensures
        p < 0x10_0000_0000_0000,
        pte_addr(p) == p,
{
    assert(p & 0x000f_ffff_ffff_f000 == p) by (bit_vector)
        requires
            p % 4096 == 0,
            p < 0x10_0000_0000_0000,
    ;
}

/// The tables on a walk from a root are tagged with the indices that led to
/// them, and so lie in memory.
pub proof fn lemma_walk_tags(m: Seq<u64>, tags: Map<u64, TableTag>, root: u64, v: u64)
    requires
        tables_wf(m, tags),
        is_root(tags, root),
    ensures
        pdpt_of(m, root, v) matches Some(t) ==> {
            &&& tags.dom().contains(t)
            &&& tags[t].level == 3
            &&& tags[t].i4 == spec_pml4_index(v)
            &&& spec_pml4_index(v) < 256 ==> tags[t].owner == root
        },
        pd_of(m, root, v) matches Some(t) ==> {
            &&& tags.dom().contains(t)
            &&& tags[t].level == 2
            &&& tags[t].i4 == spec_pml4_index(v)
            &&& tags[t].i3 == spec_pdpt_index(v)
            &&& spec_pml4_index(v) < 256 ==> tags[t].owner == root
        },
        pt_of(m, root, v) matches Some(t) ==> {
            &&& tags.dom().contains(t)
            &&& tags[t].level == 1
            &&& tags[t].i4 == spec_pml4_index(v)
            &&& tags[t].i3 == spec_pdpt_index(v)
            &&& tags[t].i2 == spec_pd_index(v)
            &&& spec_pml4_index(v) < 256 ==> tags[t].owner == root
        },
{
    lemma_index_bounds(v);
    if pdpt_of(m, root, v) is Some {
        let t3 = pdpt_of(m, root, v).unwrap();
        assert(pte_present(entry(m, root, spec_pml4_index(v))));
        assert(tags.dom().contains(t3));
        if pd_of(m, root, v) is Some {
            let t2 = pd_of(m, root, v).unwrap();
            assert(pte_present(entry(m, t3, spec_pdpt_index(v))));
            assert(tags.dom().contains(t2));
            if pt_of(m, root, v) is Some {
                let t1 = pt_of(m, root, v).unwrap();
                assert(pte_present(entry(m, t2, spec_pd_index(v))));
                assert(tags.dom().contains(t1));
            }
        }
    }
}

/// Whether the walk for `u` from `root` reads slot `k` of table `f` at the
/// root level.
pub open spec fn on4(root: u64, f: u64, k: int, u: u64) -> bool {
    f == root && k == spec_pml4_index(u)
}

/// Whether the walk for `u` reads slot `k` of table `f` at level 3.
pub open spec fn on3(m: Seq<u64>, root: u64, f: u64, k: int, u: u64) -> bool {
    pdpt_of(m, root, u) == Some(f) && k == spec_pdpt_index(u)
}

/// Whether the walk for `u` reads slot `k` of table `f` at level 2.
pub open spec fn on2(m: Seq<u64>, root: u64, f: u64, k: int, u: u64) -> bool {
    pd_of(m, root, u) == Some(f) && k == spec_pd_index(u)
}

/// Whether the walk for `u` reads slot `k` of table `f` at level 1.
pub open spec fn on1(m: Seq<u64>, root: u64, f: u64, k: int, u: u64) -> bool {
    pt_of(m, root, u) == Some(f) && k == spec_pt_index(u)
}

/// A write to one slot leaves a walk unchanged down to the first level at
/// which the walk reads that slot.
pub proof fn lemma_update_walk(
    m: Seq<u64>,
    tags: Map<u64, TableTag>,
    root: u64,
    f: u64,
    k: int,
    e: u64,
    u: u64,
)
    requires
        tables_wf(m, tags),
        is_root(tags, root),
        tags.dom().contains(f),
        0 <= k < 512,
    ensures
        ({
            let m2 = m.update(word_index(f, k), e);
            &&& !on4(root, f, k, u) ==> pdpt_of(m2, root, u) == pdpt_of(m, root, u)
            &&& !on4(root, f, k, u) && !on3(m, root, f, k, u) ==> pd_of(m2, root, u) == pd_of(
                m,
                root,
                u,
            )
            &&& !on4(root, f, k, u) && !on3(m, root, f, k, u) && !on2(m, root, f, k, u) ==> pt_of(
                m2,
                root,
                u,
            ) == pt_of(m, root, u)
            &&& !on4(root, f, k, u) && !on3(m, root, f, k, u) && !on2(m, root, f, k, u) && !on1(
                m,
                root,
                f,
                k,
                u,
            ) ==> leaf_entry(m2, root, u) == leaf_entry(m, root, u)
        }),
{
    let m2 = m.update(word_index(f, k), e);
    lemma_index_bounds(u);
    lemma_walk_tags(m, tags, root, u);
    let i4 = spec_pml4_index(u);
    let i3 = spec_pdpt_index(u);
    let i2 = spec_pd_index(u);
    let i1 = spec_pt_index(u);
    if !on4(root, f, k, u) {
        lemma_slots_distinct(f, k, root, i4);
        assert(entry(m2, root, i4) == entry(m, root, i4));
        if !on3(m, root, f, k, u) {
            if pdpt_of(m, root, u) is Some {
                let t3 = pdpt_of(m, root, u).unwrap();
                lemma_slots_distinct(f, k, t3, i3);
                assert(entry(m2, t3, i3) == entry(m, t3, i3));
            }
            if !on2(m, root, f, k, u) {
                if pd_of(m, root, u) is Some {
                    let t2 = pd_of(m, root, u).unwrap();
                    lemma_slots_distinct(f, k, t2, i2);
                    assert(entry(m2, t2, i2) == entry(m, t2, i2));
                }
                if !on1(m, root, f, k, u) {
                    if pt_of(m, root, u) is Some {
                        let t1 = pt_of(m, root, u).unwrap();
                        lemma_slots_distinct(f, k, t1, i1);
                        assert(entry(m2, t1, i1) == entry(m, t1, i1));
                    }
                }
            }
        }
    }
}

/// Whether every walk from `root` finds in `m2` the tables and the leaf
/// entries that it found in `m`.
pub open spec fn walks_kept(m: Seq<u64>, m2: Seq<u64>, root: u64) -> bool {
    forall|u: u64|
        {
            &&& pdpt_of(m, root, u) is Some ==> pdpt_of(m2, root, u) == pdpt_of(m, root, u)
            &&& pd_of(m, root, u) is Some ==> pd_of(m2, root, u) == pd_of(m, root, u)
            &&& pt_of(m, root, u) is Some ==> pt_of(m2, root, u) == pt_of(m, root, u)
            &&& #[trigger] leaf_entry(m2, root, u) == leaf_entry(m, root, u)
        }
}

/// Walks that find the same leaf entries give the same view.
pub proof fn lemma_walks_kept_view(m: Seq<u64>, m2: Seq<u64>, root: u64)
    requires
        walks_kept(m, m2, root),
    ensures
        space_view(m2, root) == space_view(m, root),
{
    assert forall|n: u64| n < 0x10_0000_0000 implies leaf_entry(m2, root, page_base(n))
        == leaf_entry(m, root, page_base(n)) by {
        let u = page_base(n);
        assert(leaf_entry(m2, root, u) == leaf_entry(m, root, u));
    }
    assert(space_view(m2, root) =~= space_view(m, root));
}

/// A write to a table of leaf entries keeps the forest.
pub proof fn lemma_leaf_write(m: Seq<u64>, tags: Map<u64, TableTag>, f: u64, k: int, e: u64)
    requires
        tables_wf(m, tags),
        tags.dom().contains(f),
        tags[f].level == 1,
        0 <= k < 512,
    ensures
        tables_wf(m.update(word_index(f, k), e), tags),
{
    let m2 = m.update(word_index(f, k), e);
    assert forall|f2: u64, k2: int|
        tags.dom().contains(f2) && 0 <= k2 < 512 && tags[f2].level > 1 && pte_present(
            #[trigger] entry(m2, f2, k2),
        ) implies tags.dom().contains(pte_addr(entry(m2, f2, k2))) && child_tag_ok(
        tags[f2],
        k2,
        tags[pte_addr(entry(m2, f2, k2))],
    ) by {
        lemma_slots_distinct(f, k, f2, k2);
        assert(entry(m2, f2, k2) == entry(m, f2, k2));
    }
}

/// What a write to a table of leaf entries does to a walk: the tables on the
/// walk stay, and the leaf entry changes exactly when the walk ends in the
/// written slot.
pub proof fn lemma_leaf_write_walk(
    m: Seq<u64>,
    tags: Map<u64, TableTag>,
    root: u64,
    f: u64,
    k: int,
    e: u64,
    u: u64,
)
    requires
        tables_wf(m, tags),
        is_root(tags, root),
        tags.dom().contains(f),
        tags[f].level == 1,
        0 <= k < 512,
    ensures
        ({
            let m2 = m.update(word_index(f, k), e);
            &&& pdpt_of(m2, root, u) == pdpt_of(m, root, u)
            &&& pd_of(m2, root, u) == pd_of(m, root, u)
            &&& pt_of(m2, root, u) == pt_of(m, root, u)
            &&& leaf_entry(m2, root, u) == if on1(m, root, f, k, u) {
                if pte_present(e) {
                    Some(e)
                } else {
                    None
                }
            } else {
                leaf_entry(m, root, u)
            }
        }),
{
    lemma_walk_tags(m, tags, root, u);
    lemma_update_walk(m, tags, root, f, k, e, u);
}

/// The walks that end in the leaf slot of `v` are those of the page of `v`.
pub proof fn lemma_on1_page(m: Seq<u64>, tags: Map<u64, TableTag>, root: u64, v: u64, u: u64)
    requires
        tables_wf(m, tags),
        is_root(tags, root),
        pt_of(m, root, v) is Some,
    ensures
        on1(m, root, pt_of(m, root, v).unwrap(), spec_pt_index(v), u) <==> vpn(u) == vpn(v),
{
    lemma_walk_tags(m, tags, root, u);
    lemma_walk_tags(m, tags, root, v);
    lemma_vpn_indices(u, v);
    if vpn(u) == vpn(v) {
        crate::walk::lemma_walk_reads_vpn(m, root, u, v);
    }
}

/// No walk from another root ends in a leaf slot of the user half of `root`.
pub proof fn lemma_on1_other_root(
    m: Seq<u64>,
    tags: Map<u64, TableTag>,
    root: u64,
    v: u64,
    other: u64,
    u: u64,
)
    requires
        tables_wf(m, tags),
        is_root(tags, root),
        is_root(tags, other),
        other != root,
        pt_of(m, root, v) is Some,
        spec_pml4_index(v) < 256,
    ensures
        !on1(m, other, pt_of(m, root, v).unwrap(), spec_pt_index(v), u),
{
    lemma_walk_tags(m, tags, other, u);
    lemma_walk_tags(m, tags, root, v);
}

/// Writing `e` to the leaf slot of `v` keeps the forest, gives the page of
/// `v` the entry `e` if `e` is present and no entry otherwise, and leaves
/// every other page of the address space as it was.
pub proof fn lemma_leaf_write_view(
    m: Seq<u64>,
    tags: Map<u64, TableTag>,
    root: u64,
    v: u64,
    e: u64,
)
    requires
        tables_wf(m, tags),
        is_root(tags, root),
        pt_of(m, root, v) is Some,
    ensures
        ({
            let m2 = m.update(word_index(pt_of(m, root, v).unwrap(), spec_pt_index(v)), e);
            &&& tables_wf(m2, tags)
            &&& space_view(m2, root) == if pte_present(e) {
                space_view(m, root).insert(vpn(v), e)
            } else {
                space_view(m, root).remove(vpn(v))
            }
        }),
{
    let f = pt_of(m, root, v).unwrap();
    let k = spec_pt_index(v);
    let m2 = m.update(word_index(f, k), e);
    lemma_index_bounds(v);
    lemma_walk_tags(m, tags, root, v);
    lemma_leaf_write(m, tags, f, k, e);
    lemma_page_base_vpn(v);
    let expected = if pte_present(e) {
        space_view(m, root).insert(vpn(v), e)
    } else {
        space_view(m, root).remove(vpn(v))
    };
    let got = space_view(m2, root);
    assert forall|n: u64| #[trigger]
        got.dom().contains(n) == expected.dom().contains(n) && (got.dom().contains(n) ==> got[n]
            == expected[n]) by {
        if n < 0x10_0000_0000 {
            let u = page_base(n);
            crate::paging::lemma_vpn_of_page_base(n);
            lemma_leaf_write_walk(m, tags, root, f, k, e, u);
            lemma_on1_page(m, tags, root, v, u);
        }
    }
    assert(got.dom() =~= expected.dom());
    assert(got =~= expected);
}

/// Writing to a leaf slot in the user half of `root` leaves the view of
/// every other address space as it was.
pub proof fn lemma_leaf_write_other(
    m: Seq<u64>,
    tags: Map<u64, TableTag>,
    root: u64,
    v: u64,
    e: u64,
    other: u64,
)
    requires
        tables_wf(m, tags),
        is_root(tags, root),
        is_root(tags, other),
        other != root,
        pt_of(m, root, v) is Some,
        spec_pml4_index(v) < 256,
    ensures
        space_view(
            m.update(word_index(pt_of(m, root, v).unwrap(), spec_pt_index(v)), e),
            other,
        ) == space_view(m, other),
{
    let f = pt_of(m, root, v).unwrap();
    let k = spec_pt_index(v);
    let m2 = m.update(word_index(f, k), e);
    lemma_index_bounds(v);
    lemma_walk_tags(m, tags, root, v);
    assert forall|n: u64| n < 0x10_0000_0000 implies leaf_entry(m2, other, page_base(n))
        == leaf_entry(m, other, page_base(n)) by {
        let u = page_base(n);
        lemma_leaf_write_walk(m, tags, other, f, k, e, u);
        lemma_on1_other_root(m, tags, root, v, other, u);
    }
    assert(space_view(m2, other) =~= space_view(m, other));
}

/// Memory that agrees with `m` on every tagged table gives the same walks.
pub proof fn lemma_same_tables_walk(
    m: Seq<u64>,
    m2: Seq<u64>,
    tags: Map<u64, TableTag>,
    root: u64,
    u: u64,
)
    requires
        tables_wf(m, tags),
        is_root(tags, root),
        forall|f: u64, k: int|
            tags.dom().contains(f) && 0 <= k < 512 ==> #[trigger] entry(m2, f, k) == entry(
                m,
                f,
                k,
            ),
    ensures
        pdpt_of(m2, root, u) == pdpt_of(m, root, u),
        pd_of(m2, root, u) == pd_of(m, root, u),
        pt_of(m2, root, u) == pt_of(m, root, u),
        leaf_entry(m2, root, u) == leaf_entry(m, root, u),
{
    lemma_index_bounds(u);
    lemma_walk_tags(m, tags, root, u);
}

/// Filling with zeroes a frame that is no table keeps the forest and every
/// walk.
pub proof fn lemma_zero_fresh(m: Seq<u64>, tags: Map<u64, TableTag>, c: u64)
    requires
        tables_wf(m, tags),
        !tags.dom().contains(c),
        frame_in(m, c),
    ensures
        tables_wf(zeroed(m, c), tags),
        frame_is_zero(zeroed(m, c), c),
        zeroed(m, c).len() == m.len(),
        zeroed(zeroed(m, c), c) == zeroed(m, c),
        forall|f: u64, k: int|
            tags.dom().contains(f) && 0 <= k < 512 ==> #[trigger] entry(zeroed(m, c), f, k)
                == entry(m, f, k),
        forall|r: u64| is_root(tags, r) ==> #[trigger] walks_kept(m, zeroed(m, c), r),
{
    let m1 = zeroed(m, c);
    assert(zeroed(m1, c) =~= m1);
    assert forall|f: u64, k: int| tags.dom().contains(f) && 0 <= k < 512 implies #[trigger] entry(
        m1,
        f,
        k,
    ) == entry(m, f, k) by {
        lemma_slots_distinct(f, k, c, 0);
        lemma_slots_distinct(f, k, c, 511);
    }
    assert forall|r: u64| is_root(tags, r) implies #[trigger] walks_kept(m, m1, r) by {
        assert forall|u: u64|
            {
                &&& pdpt_of(m, r, u) is Some ==> pdpt_of(m1, r, u) == pdpt_of(m, r, u)
                &&& pd_of(m, r, u) is Some ==> pd_of(m1, r, u) == pd_of(m, r, u)
                &&& pt_of(m, r, u) is Some ==> pt_of(m1, r, u) == pt_of(m, r, u)
                &&& #[trigger] leaf_entry(m1, r, u) == leaf_entry(m, r, u)
            } by {
            lemma_same_tables_walk(m, m1, tags, r, u);
        }
    }
}

/// The tag of the table that a new entry `k` of a table tagged `parent`
/// points to.
pub open spec fn child_tag(parent: TableTag, k: int) -> TableTag {
    TableTag {
        owner: parent.owner,
        level: parent.level - 1,
        i4: if parent.level == 4 {
            k
        } else {
            parent.i4
        },
        i3: if parent.level == 3 {
            k
        } else {
            parent.i3
        },
        i2: if parent.level == 2 {
            k
        } else {
            parent.i2
        },
    }
}

/// Pointing an absent entry of a non-leaf table at a zeroed frame that was no
/// table makes that frame a table, keeps the forest and every walk's
/// findings.
pub proof fn lemma_install(m: Seq<u64>, tags: Map<u64, TableTag>, f: u64, k: int, e: u64)
    requires
        tables_wf(m, tags),
        tags.dom().contains(f),
        tags[f].level > 1,
        0 <= k < 512,
        !pte_present(entry(m, f, k)),
        pte_present(e),
        !tags.dom().contains(pte_addr(e)),
        frame_in(m, pte_addr(e)),
        frame_is_zero(m, pte_addr(e)),
    ensures
        ({
            let m2 = m.update(word_index(f, k), e);
            let tags2 = tags.insert(pte_addr(e), child_tag(tags[f], k));
            &&& tables_wf(m2, tags2)
            &&& next_table(m2, f, k) == Some(pte_addr(e))
            &&& forall|r: u64| is_root(tags, r) ==> #[trigger] walks_kept(m, m2, r)
        }),
{
    let c = pte_addr(e);
    let m2 = m.update(word_index(f, k), e);
    let tags2 = tags.insert(c, child_tag(tags[f], k));
    lemma_zero_absent();
    assert(entry(m2, f, k) == e);
    assert forall|f2: u64, k2: int|
        tags2.dom().contains(f2) && 0 <= k2 < 512 && tags2[f2].level > 1 && pte_present(
            #[trigger] entry(m2, f2, k2),
        ) implies tags2.dom().contains(pte_addr(entry(m2, f2, k2))) && child_tag_ok(
        tags2[f2],
        k2,
        tags2[pte_addr(entry(m2, f2, k2))],
    ) by {
        if f2 == f && k2 == k {
        } else {
            lemma_slots_distinct(f, k, f2, k2);
            assert(entry(m2, f2, k2) == entry(m, f2, k2));
            if f2 == c {
                assert(entry(m, c, k2) == 0);
            }
        }
    }
    assert forall|r: u64| is_root(tags, r) implies #[trigger] walks_kept(m, m2, r) by {
        assert forall|u: u64|
            {
                &&& pdpt_of(m, r, u) is Some ==> pdpt_of(m2, r, u) == pdpt_of(m, r, u)
                &&& pd_of(m, r, u) is Some ==> pd_of(m2, r, u) == pd_of(m, r, u)
                &&& pt_of(m, r, u) is Some ==> pt_of(m2, r, u) == pt_of(m, r, u)
                &&& #[trigger] leaf_entry(m2, r, u) == leaf_entry(m, r, u)
            } by {
            lemma_index_bounds(u);
            lemma_walk_tags(m, tags, r, u);
            lemma_update_walk(m, tags, r, f, k, e, u);
            lemma_slots_distinct(f, k, c, spec_pdpt_index(u));
            lemma_slots_distinct(f, k, c, spec_pd_index(u));
            lemma_slots_distinct(f, k, c, spec_pt_index(u));
            assert(entry(m, c, spec_pdpt_index(u)) == 0);
            assert(entry(m, c, spec_pd_index(u)) == 0);
            assert(entry(m, c, spec_pt_index(u)) == 0);
        }
    }
}

/// Findings that are kept twice are kept.
pub proof fn lemma_walks_kept_trans(m: Seq<u64>, m1: Seq<u64>, m2: Seq<u64>, root: u64)
    requires
        walks_kept(m, m1, root),
        walks_kept(m1, m2, root),
    ensures
        walks_kept(m, m2, root),
{
    assert forall|u: u64|
        {
            &&& pdpt_of(m, root, u) is Some ==> pdpt_of(m2, root, u) == pdpt_of(m, root, u)
            &&& pd_of(m, root, u) is Some ==> pd_of(m2, root, u) == pd_of(m, root, u)
            &&& pt_of(m, root, u) is Some ==> pt_of(m2, root, u) == pt_of(m, root, u)
            &&& #[trigger] leaf_entry(m2, root, u) == leaf_entry(m, root, u)
        } by {
        assert(leaf_entry(m1, root, u) == leaf_entry(m, root, u));
    }
}

/// Memory that agrees with `m` on every tagged table keeps the forest.
pub proof fn lemma_same_tables_wf(m: Seq<u64>, m2: Seq<u64>, tags: Map<u64, TableTag>)
    requires
        tables_wf(m, tags),
        m2.len() == m.len(),
        forall|f: u64, k: int|
            tags.dom().contains(f) && 0 <= k < 512 ==> #[trigger] entry(m2, f, k) == entry(
                m,
                f,
                k,
            ),
    ensures
        tables_wf(m2, tags),
{
    assert forall|f: u64, k: int|
        tags.dom().contains(f) && 0 <= k < 512 && tags[f].level > 1 && pte_present(
            #[trigger] entry(m2, f, k),
        ) implies tags.dom().contains(pte_addr(entry(m2, f, k))) && child_tag_ok(
        tags[f],
        k,
        tags[pte_addr(entry(m2, f, k))],
    ) by {
        assert(entry(m2, f, k) == entry(m, f, k));
    }
}

/// The tag of a root table at frame `p`.
pub open spec fn root_tag(p: u64) -> TableTag {
    TableTag { owner: p, level: 4, i4: 0, i3: 0, i2: 0 }
}

/// Memory `m` after the frame at `p` was made the root table of a new address
/// space: its user half is empty, its kernel half holds the entries of the
/// kernel half of the root table at `kroot`.
pub open spec fn with_new_root(m: Seq<u64>, kroot: u64, p: u64) -> Seq<u64> {
    copied(zeroed(m, p), kroot, p, 256, 256)
}

/// The part of a view that lies in the kernel half.
pub open spec fn kernel_half(view: Map<u64, u64>) -> Map<u64, u64> {
    view.restrict(Set::new(|n: u64| is_kernel_page(n)))
}

/// Making a frame that is no table the root of a new address space keeps
/// the forest, with or without the new root, and every walk from the old
/// roots. The new root holds the kernel half of the kernel's root, so the
/// new address space shows exactly the kernel half of the kernel's view.
pub proof fn lemma_new_root(m: Seq<u64>, tags: Map<u64, TableTag>, kroot: u64, p: u64)
    requires
        tables_wf(m, tags),
        is_root(tags, kroot),
        !tags.dom().contains(p),
        frame_in(m, p),
    ensures
        ({
            let m2 = with_new_root(m, kroot, p);
            &&& m2.len() == m.len()
            &&& tables_wf(m2, tags)
            &&& tables_wf(m2, tags.insert(p, root_tag(p)))
            &&& forall|f: u64, k: int|
                tags.dom().contains(f) && 0 <= k < 512 ==> #[trigger] entry(m2, f, k) == entry(
                    m,
                    f,
                    k,
                )
            &&& forall|k: int| 0 <= k < 256 ==> #[trigger] entry(m2, p, k) == 0
            &&& forall|k: int| 256 <= k < 512 ==> #[trigger] entry(m2, p, k) == entry(m, kroot, k)
            &&& forall|r: u64| is_root(tags, r) ==> #[trigger] walks_kept(m, m2, r)
            &&& space_view(m2, p) == kernel_half(space_view(m, kroot))
        }),
{
    let m1 = zeroed(m, p);
    let m2 = with_new_root(m, kroot, p);
    let tags2 = tags.insert(p, root_tag(p));
    lemma_zero_absent();
    assert forall|f: u64, k: int| tags.dom().contains(f) && 0 <= k < 512 implies #[trigger] entry(
        m2,
        f,
        k,
    ) == entry(m, f, k) by {
        lemma_slots_distinct(f, k, p, 0);
        lemma_slots_distinct(f, k, p, 511);
    }
    assert forall|k: int| 0 <= k < 256 implies #[trigger] entry(m2, p, k) == 0 by {}
    assert forall|k: int| 256 <= k < 512 implies #[trigger] entry(m2, p, k) == entry(
        m,
        kroot,
        k,
    ) by {
        lemma_slots_distinct(kroot, k, p, 0);
        lemma_slots_distinct(kroot, k, p, 511);
    }
    lemma_same_tables_wf(m, m2, tags);
    assert forall|f: u64, k: int|
        tags2.dom().contains(f) && 0 <= k < 512 && tags2[f].level > 1 && pte_present(
            #[trigger] entry(m2, f, k),
        ) implies tags2.dom().contains(pte_addr(entry(m2, f, k))) && child_tag_ok(
        tags2[f],
        k,
        tags2[pte_addr(entry(m2, f, k))],
    ) by {
        if f == p {
            if k < 256 {
                assert(entry(m2, p, k) == 0);
            } else {
                assert(entry(m2, p, k) == entry(m, kroot, k));
            }
        } else {
            assert(entry(m2, f, k) == entry(m, f, k));
        }
    }
    assert forall|r: u64| is_root(tags, r) implies #[trigger] walks_kept(m, m2, r) by {
        assert forall|u: u64|
            {
                &&& pdpt_of(m, r, u) is Some ==> pdpt_of(m2, r, u) == pdpt_of(m, r, u)
                &&& pd_of(m, r, u) is Some ==> pd_of(m2, r, u) == pd_of(m, r, u)
                &&& pt_of(m, r, u) is Some ==> pt_of(m2, r, u) == pt_of(m, r, u)
                &&& #[trigger] leaf_entry(m2, r, u) == leaf_entry(m, r, u)
            } by {
            lemma_same_tables_walk(m, m2, tags, r, u);
        }
    }
    let got = space_view(m2, p);
    let expected = kernel_half(space_view(m, kroot));
    assert forall|n: u64| #[trigger]
        got.dom().contains(n) == expected.dom().contains(n) && (got.dom().contains(n) ==> got[n]
            == expected[n]) by {
        if n < 0x10_0000_0000 {
            let u = page_base(n);
            crate::paging::lemma_vpn_of_page_base(n);
            lemma_kernel_half(u);
            lemma_index_bounds(u);
            let i4 = spec_pml4_index(u);
            if i4 < 256 {
                assert(entry(m2, p, i4) == 0);
            } else {
                assert(entry(m2, p, i4) == entry(m, kroot, i4));
                lemma_walk_tags(m, tags, kroot, u);
                if pdpt_of(m, kroot, u) is Some {
                    let t3 = pdpt_of(m, kroot, u).unwrap();
                    assert(entry(m2, t3, spec_pdpt_index(u)) == entry(m, t3, spec_pdpt_index(u)));
                    if pd_of(m, kroot, u) is Some {
                        let t2 = pd_of(m, kroot, u).unwrap();
                        assert(entry(m2, t2, spec_pd_index(u)) == entry(m, t2, spec_pd_index(u)));
                        if pt_of(m, kroot, u) is Some {
                            let t1 = pt_of(m, kroot, u).unwrap();
                            assert(entry(m2, t1, spec_pt_index(u)) == entry(
                                m,
                                t1,
                                spec_pt_index(u),
                            ));
                        }
                    }
                }
            }
        }
    }
    assert(got.dom() =~= expected.dom());
    assert(got =~= expected);
}

/// The tables that belong to the address space with root `r` alone: the
/// root itself and the tables of its user half.
pub open spec fn space_tables(tags: Map<u64, TableTag>, r: u64) -> Set<u64> {
    Set::new(
        |f: u64|
            tags.dom().contains(f) && tags[f].owner == r && (tags[f].level == 4 || tags[f].i4
                < 256),
    )
}

/// Taking the tables of one address space out of the forest keeps the
/// forest: no table that stays points to one that leaves.
pub proof fn lemma_remove_space(m: Seq<u64>, tags: Map<u64, TableTag>, r: u64)
    requires
        tables_wf(m, tags),
    ensures
        tables_wf(m, tags.remove_keys(space_tables(tags, r))),
{
    let tags2 = tags.remove_keys(space_tables(tags, r));
    assert forall|f: u64, k: int|
        tags2.dom().contains(f) && 0 <= k < 512 && tags2[f].level > 1 && pte_present(
            #[trigger] entry(m, f, k),
        ) implies tags2.dom().contains(pte_addr(entry(m, f, k))) && child_tag_ok(
        tags2[f],
        k,
        tags2[pte_addr(entry(m, f, k))],
    ) by {
        let c = pte_addr(entry(m, f, k));
        assert(tags.dom().contains(f));
        assert(tags.dom().contains(c));
        assert(child_tag_ok(tags[f], k, tags[c]));
        if space_tables(tags, r).contains(c) {
            assert(space_tables(tags, r).contains(f));
        }
    }
}

/// Whether the teardown of a user half, on reaching entry `c` of the level-2
/// table under entries `a` and `b`, has passed the table tagged `t`: tables
/// of leaf entries are passed one by one, a level-2 table after all tables
/// under it, a level-3 table after all tables under it.
pub open spec fn passed(t: TableTag, a: int, b: int, c: int) -> bool {
    if t.level == 3 {
        t.i4 < a
    } else if t.level == 2 {
        t.i4 < a || (t.i4 == a && t.i3 < b)
    } else {
        t.level == 1 && (t.i4 < a || (t.i4 == a && (t.i3 < b || (t.i3 == b && t.i2 < c))))
    }
}

/// Whether every frame of `free` was in `free0` or is a passed table of the
/// user half of the address space with root `r`.
pub open spec fn freed_so_far(
    free: Set<u64>,
    free0: Set<u64>,
    tags: Map<u64, TableTag>,
    r: u64,
    a: int,
    b: int,
    c: int,
) -> bool {
    forall|f: u64| #[trigger]
        free.contains(f) ==> free0.contains(f) || (tags.dom().contains(f) && tags[f].owner == r
            && tags[f].i4 < 256 && passed(tags[f], a, b, c))
}

/// Whether the teardown of an address space goes down through entry `e`:
/// the entry is present and does not map a large page.
pub open spec fn descends(e: u64) -> bool {
    pte_present(e) && e & PTE_PS == 0
}

/// The frames that a teardown hands back for the first `n` entries of the
/// level-2 table at `pd`: the tables of leaf entries that those entries point
/// to, in the order of the entries.
pub open spec fn leaf_tables_upto(m: Seq<u64>, pd: u64, n: int) -> Seq<u64>
    decreases n,
{
    if n <= 0 {
        Seq::empty()
    } else if descends(entry(m, pd, n - 1)) {
        leaf_tables_upto(m, pd, n - 1).push(pte_addr(entry(m, pd, n - 1)))
    } else {
        leaf_tables_upto(m, pd, n - 1)
    }
}

/// The frames that a teardown hands back for the first `n` entries of the
/// level-3 table at `pdpt`: for each level-2 table its tables of leaf
/// entries, then the level-2 table itself.
pub open spec fn pd_tables_upto(m: Seq<u64>, pdpt: u64, n: int) -> Seq<u64>
    decreases n,
{
    if n <= 0 {
        Seq::empty()
    } else if descends(entry(m, pdpt, n - 1)) {
        (pd_tables_upto(m, pdpt, n - 1) + leaf_tables_upto(
            m,
            pte_addr(entry(m, pdpt, n - 1)),
            512,
        )).push(pte_addr(entry(m, pdpt, n - 1)))
    } else {
        pd_tables_upto(m, pdpt, n - 1)
    }
}

/// The frames that a teardown hands back for the first `n` entries of the
/// root table at `root`: for each level-3 table the tables under it, then
/// the level-3 table itself.
pub open spec fn user_tables_upto(m: Seq<u64>, root: u64, n: int) -> Seq<u64>
    decreases n,
{
    if n <= 0 {
        Seq::empty()
    } else if descends(entry(m, root, n - 1)) {
        (user_tables_upto(m, root, n - 1) + pd_tables_upto(
            m,
            pte_addr(entry(m, root, n - 1)),
            512,
        )).push(pte_addr(entry(m, root, n - 1)))
    } else {
        user_tables_upto(m, root, n - 1)
    }
}

/// The frames that the teardown of the address space with root `root` hands
/// back, in order: the tables of the user half, each after the tables under
/// it, and the root last.
pub open spec fn teardown_order(m: Seq<u64>, root: u64) -> Seq<u64> {
    user_tables_upto(m, root, 256).push(root)
}

} // verus!

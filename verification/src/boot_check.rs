//! A test for the page tables that the boot stage leaves behind: whether
//! they can serve as the kernel address space of the engine.

use vstd::prelude::*;

use crate::boot_alloc::{in_region, is_usable, later};
use crate::bootabi::MemMapEntry;
use crate::mmu::PhysAddr;
use crate::paging::{lemma_pte_addr, pte_addr, pte_present, ADDR_MASK, ENTRY_COUNT, PTE_P};
use crate::phys_mem::{entry, frame_in, PhysMemory};
use crate::tables::{
    child_tag, child_tag_ok, is_root, max_words, root_tag, tables_wf, tag_ok, TableTag,
};
use crate::vm::map_frames;
use crate::x86_mmu::boot_tables_ok;

verus! {

/// The forest invariant for tables that are still being looked at: `upto`
/// says for each of them how many of its entries were looked at, and only
/// those have to point to tagged tables. For every other tagged table all
/// entries have to.
pub open spec fn tables_wf_upto(
    m: Seq<u64>,
    tags: Map<u64, TableTag>,
    upto: Map<u64, int>,
) -> bool {
    &&& m.len() <= max_words()
    &&& forall|f: u64| #[trigger] tags.dom().contains(f) ==> frame_in(m, f) && tag_ok(f, tags[f])
    &&& forall|f: u64, k: int|
        tags.dom().contains(f) && 0 <= k < 512 && tags[f].level > 1 && pte_present(
            #[trigger] entry(m, f, k),
        ) && (upto.dom().contains(f) ==> k < upto[f]) ==> tags.dom().contains(
            pte_addr(entry(m, f, k)),
        ) && child_tag_ok(tags[f], k, tags[pte_addr(entry(m, f, k))])
}

/// Whether the frame at `p` is one that a frame source over the map could
/// hand out.
pub fn in_map_frames(entries: &Vec<MemMapEntry>, p: u64) -> (r: bool)
    ensures
        r == map_frames(entries@).contains(p),
{
    if p % 4096 != 0 {
        proof {
            if later(entries@, 0, p) {
                let i = choose|i: int| 0 < i && #[trigger] in_region(entries@, i, 0, p);
            }
        }
        return false;
    }
    let mut i: usize = 0;
    while i < entries.len()
        invariant
            i <= entries@.len(),
            p % 4096 == 0,
            forall|k: int| 0 <= k < i ==> !in_region(entries@, k, 0, p),
        decreases entries@.len() - i,
    {
        let e = entries[i];
        if is_usable(e.mem_type) && e.base.0 <= p {
            let end: u128 = e.base.0 as u128 + e.len as u128;
            if p as u128 + 4096 <= end {
                proof {
                    assert(in_region(entries@, i as int, 0, p));
                    if i > 0 {
                        assert(0 < i && in_region(entries@, i as int, 0, p));
                    }
                }
                return true;
            }
        }
        i = i + 1;
    }
    proof {
        if later(entries@, 0, p) {
            let k = choose|k: int| 0 < k && #[trigger] in_region(entries@, k, 0, p);
        }
    }
    false
}

/// Whether the frame at `t` can become a table: it lies in memory, no frame
/// source over the map could hand it out, and it was not seen before.
fn admits(mem: &PhysMemory, entries: &Vec<MemMapEntry>, seen: &Vec<u64>, t: u64) -> (r: bool)
    ensures
        r == (frame_in(mem@, t) && !map_frames(entries@).contains(t) && !seen@.contains(t)),
{
    if !mem.contains_frame(t) {
        return false;
    }
    if in_map_frames(entries, t) {
        return false;
    }
    let mut i: usize = 0;
    while i < seen.len()
        invariant
            i <= seen@.len(),
            forall|k: int| 0 <= k < i ==> seen@[k] != t,
        decreases seen@.len() - i,
    {
        if seen[i] == t {
            return false;
        }
        i = i + 1;
    }
    true
}

/// What the test keeps while it walks: the frames it has seen are exactly
/// the tagged ones, and none of them could be handed out by a frame source
/// over the map.
pub open spec fn seen_ok(
    seen: Seq<u64>,
    tags: Map<u64, TableTag>,
    avoid: Set<u64>,
) -> bool {
    &&& forall|f: u64| seen.contains(f) <==> #[trigger] tags.dom().contains(f)
    &&& forall|f: u64| #[trigger] tags.dom().contains(f) ==> !avoid.contains(f)
}

/// Whether two tags name the same place in a forest: the same level and the
/// same indices on the way from the root, as far as the level has them.
pub open spec fn same_place(a: TableTag, b: TableTag) -> bool {
    &&& a.level == b.level
    &&& a.level <= 3 ==> a.i4 == b.i4
    &&& a.level <= 2 ==> a.i3 == b.i3
    &&& a.level <= 1 ==> a.i2 == b.i2
}

/// Whether `tags` makes the tables from `root` a forest that shares no frame
/// with `avoid`.
pub open spec fn is_forest(
    m: Seq<u64>,
    tags: Map<u64, TableTag>,
    root: u64,
    avoid: Set<u64>,
) -> bool {
    tables_wf(m, tags) && is_root(tags, root) && tags.dom().disjoint(avoid)
}

/// How the tables that were seen hang together: the root is the only table
/// of its level, and every other table was found behind an entry of a seen
/// table that was looked at before, and is tagged as that entry's child.
pub open spec fn found_by(
    m: Seq<u64>,
    tags: Map<u64, TableTag>,
    parent: Map<u64, (u64, int)>,
    upto: Map<u64, int>,
    root: u64,
) -> bool {
    forall|f: u64| #[trigger]
        tags.dom().contains(f) ==> if f == root {
            tags[f].level == 4
        } else {
            &&& tags[f].level < 4
            &&& parent.dom().contains(f)
            &&& tags.dom().contains(parent[f].0)
            &&& tags[parent[f].0].level > 1
            &&& 0 <= parent[f].1 < 512
            &&& pte_present(entry(m, parent[f].0, parent[f].1))
            &&& pte_addr(entry(m, parent[f].0, parent[f].1)) == f
            &&& tags[f] == child_tag(tags[parent[f].0], parent[f].1)
            &&& upto.dom().contains(parent[f].0) ==> parent[f].1 < upto[parent[f].0]
        }
}

/// Whether the tags of the seen tables name the places that `forest` gives
/// them, provided `forest` is one.
pub open spec fn agrees(
    m: Seq<u64>,
    tags: Map<u64, TableTag>,
    forest: Map<u64, TableTag>,
    root: u64,
    avoid: Set<u64>,
) -> bool {
    is_forest(m, forest, root, avoid) ==> forall|f: u64| #[trigger]
        tags.dom().contains(f) ==> forest.dom().contains(f) && same_place(forest[f], tags[f])
}

/// Two seen tables at the same place are the same table.
proof fn lemma_place_unique(
    m: Seq<u64>,
    tags: Map<u64, TableTag>,
    parent: Map<u64, (u64, int)>,
    upto: Map<u64, int>,
    root: u64,
    f: u64,
    g: u64,
)
    requires
        found_by(m, tags, parent, upto, root),
        tags.dom().contains(f),
        tags.dom().contains(g),
        same_place(tags[f], tags[g]),
        forall|x: u64| #[trigger] tags.dom().contains(x) ==> 1 <= tags[x].level <= 4,
    ensures
        f == g,
    decreases 4 - tags[f].level,
{
    if f != root && g != root {
        let pf = parent[f].0;
        let pg = parent[g].0;
        assert(tags.dom().contains(pf));
        assert(tags.dom().contains(pg));
        assert(tags[f] == child_tag(tags[pf], parent[f].1));
        assert(tags[g] == child_tag(tags[pg], parent[g].1));
        assert(same_place(tags[pf], tags[pg]));
        lemma_place_unique(m, tags, parent, upto, root, pf, pg);
    }
}

/// Looks at the entries of the table at `table`, a table of level `level`,
/// and at the tables below it: every present entry has to point to a frame
/// that can become a table of the next level.
fn check_table(
    mem: &PhysMemory,
    entries: &Vec<MemMapEntry>,
    seen: &mut Vec<u64>,
    table: PhysAddr,
    level: u8,
    Ghost(root): Ghost<u64>,
    Ghost(forest): Ghost<Map<u64, TableTag>>,
    Ghost(tags): Ghost<Map<u64, TableTag>>,
    Ghost(parent): Ghost<Map<u64, (u64, int)>>,
    Ghost(upto): Ghost<Map<u64, int>>,
) -> (r: (bool, Ghost<Map<u64, TableTag>>, Ghost<Map<u64, (u64, int)>>))
    requires
        tables_wf_upto(mem@, tags, upto),
        seen_ok(old(seen)@, tags, map_frames(entries@)),
        found_by(mem@, tags, parent, upto, root),
        agrees(mem@, tags, forest, root, map_frames(entries@)),
        tags.dom().contains(table.0),
        tags[table.0].level == level,
        2 <= level <= 4,
        upto.dom().contains(table.0),
        upto[table.0] == 0,
        forall|f: u64| upto.dom().contains(f) ==> tags.dom().contains(f),
    ensures
        r.0 ==> {
            &&& tables_wf_upto(mem@, r.1@, upto.remove(table.0))
            &&& seen_ok(final(seen)@, r.1@, map_frames(entries@))
            &&& found_by(mem@, r.1@, r.2@, upto.remove(table.0), root)
            &&& agrees(mem@, r.1@, forest, root, map_frames(entries@))
            &&& forall|f: u64| #[trigger]
                tags.dom().contains(f) ==> r.1@.dom().contains(f) && r.1@[f] == tags[f]
        },
        is_forest(mem@, forest, root, map_frames(entries@)) ==> r.0,
    decreases level,
{
    let ghost mut cur = tags;
    let ghost mut par = parent;
    let ghost avoid = map_frames(entries@);
    let mut k: usize = 0;
    proof {
        assert(upto.insert(table.0, 0) =~= upto);
    }
    while k < ENTRY_COUNT
        invariant
            k <= ENTRY_COUNT,
            2 <= level <= 4,
            avoid == map_frames(entries@),
            tables_wf_upto(mem@, cur, upto.insert(table.0, k as int)),
            seen_ok(seen@, cur, avoid),
            found_by(mem@, cur, par, upto.insert(table.0, k as int), root),
            agrees(mem@, cur, forest, root, avoid),
            cur.dom().contains(table.0),
            cur[table.0].level == level,
            forall|f: u64| upto.dom().contains(f) ==> tags.dom().contains(f),
            forall|f: u64| #[trigger]
                tags.dom().contains(f) ==> cur.dom().contains(f) && cur[f] == tags[f],
        decreases ENTRY_COUNT - k,
    {
        let e = mem.read_entry(table, k);
        let ghost here = upto.insert(table.0, k as int);
        let ghost next = upto.insert(table.0, k + 1);
        proof {
            assert(here.insert(table.0, k + 1) =~= next);
        }
        if (e & PTE_P) != 0 {
            let t = e & ADDR_MASK;
            if !admits(mem, entries, seen, t) {
                proof {
                    lemma_no_forest(
                        mem@,
                        cur,
                        par,
                        here,
                        root,
                        forest,
                        avoid,
                        table.0,
                        k as int,
                        seen@,
                    );
                }
                return (false, Ghost(cur), Ghost(par));
            }
            proof {
                lemma_pte_addr(e);
                lemma_extend(mem@, cur, here, table.0, k as int, seen@);
                lemma_found(mem@, cur, par, here, root, forest, avoid, table.0, k as int);
                par = par.insert(t, (table.0, k as int));
                cur = cur.insert(t, child_tag(cur[table.0], k as int));
            }
            let ghost before = seen@;
            seen.push(t);
            proof {
                lemma_seen_push(before, seen@, t);
            }
            if level > 2 {
                let ghost passed = cur;
                let (ok, below, found) = check_table(
                    mem,
                    entries,
                    seen,
                    PhysAddr(t),
                    level - 1,
                    Ghost(root),
                    Ghost(forest),
                    Ghost(cur),
                    Ghost(par),
                    Ghost(next.insert(t, 0)),
                );
                if !ok {
                    return (false, Ghost(cur), Ghost(par));
                }
                proof {
                    assert(next.insert(t, 0).remove(t) =~= next);
                    assert(passed.dom().contains(table.0));
                    assert forall|f: u64| #[trigger] tags.dom().contains(f) implies below@.dom()
                        .contains(f) && below@[f] == tags[f] by {
                        assert(passed.dom().contains(f));
                    }
                    cur = below@;
                    par = found@;
                }
            }
        } else {
            proof {
                lemma_skip(mem@, cur, here, table.0, k as int);
                lemma_found_skip(mem@, cur, par, here, root, table.0, k as int);
            }
        }
        k = k + 1;
    }
    proof {
        lemma_close(mem@, cur, upto.insert(table.0, 512), table.0);
        assert(upto.insert(table.0, 512).remove(table.0) =~= upto.remove(table.0));
        lemma_found_close(mem@, cur, par, upto.insert(table.0, 512), root, table.0);
    }
    (true, Ghost(cur), Ghost(par))
}

/// Behind an entry that was not looked at before, a forest has a frame that
/// lies in memory, that no frame source could hand out and that was not
/// seen. So where the test finds otherwise, there is no forest.
proof fn lemma_no_forest(
    m: Seq<u64>,
    tags: Map<u64, TableTag>,
    parent: Map<u64, (u64, int)>,
    upto: Map<u64, int>,
    root: u64,
    forest: Map<u64, TableTag>,
    avoid: Set<u64>,
    f: u64,
    k: int,
    seen: Seq<u64>,
)
    requires
        tables_wf_upto(m, tags, upto),
        seen_ok(seen, tags, avoid),
        found_by(m, tags, parent, upto, root),
        agrees(m, tags, forest, root, avoid),
        tags.dom().contains(f),
        tags[f].level > 1,
        upto.dom().contains(f),
        upto[f] == k,
        0 <= k < 512,
        pte_present(entry(m, f, k)),
        !(frame_in(m, pte_addr(entry(m, f, k))) && !avoid.contains(pte_addr(entry(m, f, k)))
            && !seen.contains(pte_addr(entry(m, f, k)))),
    ensures
        !is_forest(m, forest, root, avoid),
{
    let t = pte_addr(entry(m, f, k));
    if is_forest(m, forest, root, avoid) {
        assert(forest.dom().contains(f));
        assert(same_place(forest[f], tags[f]));
        assert(forest.dom().contains(t));
        assert(child_tag_ok(forest[f], k, forest[t]));
        assert(frame_in(m, t));
        assert(!avoid.contains(t));
        assert(tags.dom().contains(t));
        assert(same_place(forest[t], tags[t]));
        assert(same_place(tags[t], child_tag(tags[f], k)));
        if t == root {
            assert(false);
        } else {
            let g = parent[t].0;
            let j = parent[t].1;
            assert(tags[t] == child_tag(tags[g], j));
            assert(same_place(tags[g], tags[f]));
            lemma_place_unique(m, tags, parent, upto, root, g, f);
            assert(false);
        }
    }
}

/// A new table behind an entry keeps how the seen tables hang together and
/// their agreement with a forest.
proof fn lemma_found(
    m: Seq<u64>,
    tags: Map<u64, TableTag>,
    parent: Map<u64, (u64, int)>,
    upto: Map<u64, int>,
    root: u64,
    forest: Map<u64, TableTag>,
    avoid: Set<u64>,
    f: u64,
    k: int,
)
    requires
        tables_wf_upto(m, tags, upto),
        found_by(m, tags, parent, upto, root),
        agrees(m, tags, forest, root, avoid),
        tags.dom().contains(f),
        tags[f].level > 1,
        upto.dom().contains(f),
        upto[f] == k,
        0 <= k < 512,
        pte_present(entry(m, f, k)),
        !tags.dom().contains(pte_addr(entry(m, f, k))),
    ensures
        ({
            let t = pte_addr(entry(m, f, k));
            let tags2 = tags.insert(t, child_tag(tags[f], k));
            let parent2 = parent.insert(t, (f, k));
            &&& agrees(m, tags2, forest, root, avoid)
            &&& tags[f].level == 2 ==> found_by(m, tags2, parent2, upto.insert(f, k + 1), root)
            &&& tags[f].level > 2 ==> found_by(
                m,
                tags2,
                parent2,
                upto.insert(f, k + 1).insert(t, 0),
                root,
            )
        }),
{
    let t = pte_addr(entry(m, f, k));
    let tags2 = tags.insert(t, child_tag(tags[f], k));
    let parent2 = parent.insert(t, (f, k));
    let upto2 = if tags[f].level == 2 {
        upto.insert(f, k + 1)
    } else {
        upto.insert(f, k + 1).insert(t, 0)
    };
    assert forall|x: u64| #[trigger] tags2.dom().contains(x) implies if x == root {
        tags2[x].level == 4
    } else {
        &&& tags2[x].level < 4
        &&& parent2.dom().contains(x)
        &&& tags2.dom().contains(parent2[x].0)
        &&& tags2[parent2[x].0].level > 1
        &&& 0 <= parent2[x].1 < 512
        &&& pte_present(entry(m, parent2[x].0, parent2[x].1))
        &&& pte_addr(entry(m, parent2[x].0, parent2[x].1)) == x
        &&& tags2[x] == child_tag(tags2[parent2[x].0], parent2[x].1)
        &&& upto2.dom().contains(parent2[x].0) ==> parent2[x].1 < upto2[parent2[x].0]
    } by {
        if x == t {
            // found behind entry `k` of `f`
        } else {
            assert(tags.dom().contains(x));
            if x != root {
                assert(tags.dom().contains(parent[x].0));
            }
        }
    }
    if is_forest(m, forest, root, avoid) {
        assert(forest.dom().contains(f));
        assert(same_place(forest[f], tags[f]));
        assert(forest.dom().contains(t));
        assert(child_tag_ok(forest[f], k, forest[t]));
        assert forall|x: u64| #[trigger] tags2.dom().contains(x) implies forest.dom().contains(x)
            && same_place(forest[x], tags2[x]) by {
            if x != t {
                assert(tags.dom().contains(x));
            }
        }
    }
}

/// Looking at an absent entry keeps how the seen tables hang together.
proof fn lemma_found_skip(
    m: Seq<u64>,
    tags: Map<u64, TableTag>,
    parent: Map<u64, (u64, int)>,
    upto: Map<u64, int>,
    root: u64,
    f: u64,
    k: int,
)
    requires
        found_by(m, tags, parent, upto, root),
        upto.dom().contains(f),
        upto[f] == k,
    ensures
        found_by(m, tags, parent, upto.insert(f, k + 1), root),
{
    let upto2 = upto.insert(f, k + 1);
    assert forall|x: u64|
        #[trigger] tags.dom().contains(x) && x != root && upto2.dom().contains(
            parent[x].0,
        ) implies parent[x].1 < upto2[parent[x].0] by {
        if parent[x].0 != f {
            assert(upto2.dom().contains(parent[x].0) == upto.dom().contains(parent[x].0));
        }
    }
}

/// Dropping the count of a table keeps how the seen tables hang together.
proof fn lemma_found_close(
    m: Seq<u64>,
    tags: Map<u64, TableTag>,
    parent: Map<u64, (u64, int)>,
    upto: Map<u64, int>,
    root: u64,
    f: u64,
)
    requires
        found_by(m, tags, parent, upto, root),
    ensures
        found_by(m, tags, parent, upto.remove(f), root),
{
    let upto2 = upto.remove(f);
    assert forall|x: u64|
        #[trigger] tags.dom().contains(x) && x != root && upto2.dom().contains(
            parent[x].0,
        ) implies parent[x].1 < upto2[parent[x].0] by {
        if parent[x].0 != f {
            assert(upto2.dom().contains(parent[x].0) == upto.dom().contains(parent[x].0));
        }
    }
}

/// Whether the page tables that start at `root` can serve as the kernel
/// address space beside a frame source over the memory map: memory does not
/// exceed what 52-bit addresses reach, every table lies in memory, no two
/// entries lead to the same table, and no table is a frame that the source
/// could hand out.
pub fn check_boot_tables(mem: &PhysMemory, root: PhysAddr, entries: &Vec<MemMapEntry>) -> (r: bool)
    ensures
        r == boot_tables_ok(mem@, root.0, map_frames(entries@)),
{
    let ghost avoid = map_frames(entries@);
    let ghost forest = choose|t: Map<u64, TableTag>| is_forest(mem@, t, root.0, avoid);
    proof {
        if boot_tables_ok(mem@, root.0, avoid) {
            let w = choose|t: Map<u64, TableTag>|
                tables_wf(mem@, t) && is_root(t, root.0) && #[trigger] t.dom().disjoint(avoid);
            assert(is_forest(mem@, w, root.0, avoid));
        }
    }
    if mem.len() as u128 > 0x2_0000_0000_0000u128 {
        return false;
    }
    let mut seen: Vec<u64> = Vec::new();
    if !admits(mem, entries, &seen, root.0) {
        proof {
            if is_forest(mem@, forest, root.0, avoid) {
                assert(forest.dom().contains(root.0));
            }
        }
        return false;
    }
    seen.push(root.0);
    let ghost tags = Map::<u64, TableTag>::empty().insert(root.0, root_tag(root.0));
    let ghost parent = Map::<u64, (u64, int)>::empty();
    let ghost upto = Map::<u64, int>::empty().insert(root.0, 0int);
    proof {
        lemma_seen_push(Seq::<u64>::empty(), seen@, root.0);
        assert(Seq::<u64>::empty().push(root.0) =~= seen@);
    }
    let (ok, all, _) = check_table(
        mem,
        entries,
        &mut seen,
        root,
        4,
        Ghost(root.0),
        Ghost(forest),
        Ghost(tags),
        Ghost(parent),
        Ghost(upto),
    );
    if !ok {
        return false;
    }
    proof {
        assert(upto.remove(root.0) =~= Map::<u64, int>::empty());
        assert(tags.dom().contains(root.0));
        assert(tables_wf(mem@, all@));
        assert(is_root(all@, root.0));
        assert(all@.dom().disjoint(avoid));
    }
    true
}

/// Looking at an absent entry of a table moves its count on.
proof fn lemma_skip(m: Seq<u64>, tags: Map<u64, TableTag>, upto: Map<u64, int>, f: u64, k: int)
    requires
        tables_wf_upto(m, tags, upto),
        upto.dom().contains(f),
        upto[f] == k,
        !pte_present(entry(m, f, k)),
    ensures
        tables_wf_upto(m, tags, upto.insert(f, k + 1)),
{
    let upto2 = upto.insert(f, k + 1);
    assert forall|g: u64, j: int|
        tags.dom().contains(g) && 0 <= j < 512 && tags[g].level > 1 && pte_present(
            #[trigger] entry(m, g, j),
        ) && (upto2.dom().contains(g) ==> j < upto2[g]) implies tags.dom().contains(
        pte_addr(entry(m, g, j)),
    ) && child_tag_ok(tags[g], j, tags[pte_addr(entry(m, g, j))]) by {
        if g == f {
            assert(j != k);
            assert(j < upto[f]);
        } else {
            assert(upto2.dom().contains(g) == upto.dom().contains(g));
            if upto.dom().contains(g) {
                assert(upto2[g] == upto[g]);
            }
        }
    }
}

/// Tagging the frame behind a present entry of a table as its child moves
/// the table's count on. The child is new and starts with nothing looked
/// at, unless it is a table of leaf entries, which needs no looking at.
proof fn lemma_extend(
    m: Seq<u64>,
    tags: Map<u64, TableTag>,
    upto: Map<u64, int>,
    f: u64,
    k: int,
    seen: Seq<u64>,
)
    requires
        tables_wf_upto(m, tags, upto),
        tags.dom().contains(f),
        tags[f].level > 1,
        upto.dom().contains(f),
        upto[f] == k,
        0 <= k < 512,
        pte_present(entry(m, f, k)),
        frame_in(m, pte_addr(entry(m, f, k))),
        !tags.dom().contains(pte_addr(entry(m, f, k))),
    ensures
        ({
            let t = pte_addr(entry(m, f, k));
            let tags2 = tags.insert(t, child_tag(tags[f], k));
            &&& tags[f].level == 2 ==> tables_wf_upto(m, tags2, upto.insert(f, k + 1))
            &&& tags[f].level > 2 ==> tables_wf_upto(m, tags2, upto.insert(f, k + 1).insert(t, 0))
        }),
{
    let t = pte_addr(entry(m, f, k));
    let tags2 = tags.insert(t, child_tag(tags[f], k));
    let upto2 = if tags[f].level == 2 {
        upto.insert(f, k + 1)
    } else {
        upto.insert(f, k + 1).insert(t, 0)
    };
    assert forall|g: u64, j: int|
        tags2.dom().contains(g) && 0 <= j < 512 && tags2[g].level > 1 && pte_present(
            #[trigger] entry(m, g, j),
        ) && (upto2.dom().contains(g) ==> j < upto2[g]) implies tags2.dom().contains(
        pte_addr(entry(m, g, j)),
    ) && child_tag_ok(tags2[g], j, tags2[pte_addr(entry(m, g, j))]) by {
        if g == t {
            // a table of leaf entries, or nothing looked at yet
        } else if g == f {
            if j != k {
                assert(j < upto[f]);
            }
        } else {
            assert(upto2.dom().contains(g) == upto.dom().contains(g));
            if upto.dom().contains(g) {
                assert(upto2[g] == upto[g]);
            }
        }
    }
}

/// A table of which every entry was looked at needs no count.
proof fn lemma_close(m: Seq<u64>, tags: Map<u64, TableTag>, upto: Map<u64, int>, f: u64)
    requires
        tables_wf_upto(m, tags, upto),
        upto.dom().contains(f),
        upto[f] == 512,
    ensures
        tables_wf_upto(m, tags, upto.remove(f)),
{
    let upto2 = upto.remove(f);
    assert forall|g: u64, j: int|
        tags.dom().contains(g) && 0 <= j < 512 && tags[g].level > 1 && pte_present(
            #[trigger] entry(m, g, j),
        ) && (upto2.dom().contains(g) ==> j < upto2[g]) implies tags.dom().contains(
        pte_addr(entry(m, g, j)),
    ) && child_tag_ok(tags[g], j, tags[pte_addr(entry(m, g, j))]) by {
        if g != f {
            assert(upto2.dom().contains(g) == upto.dom().contains(g));
            if upto.dom().contains(g) {
                assert(upto2[g] == upto[g]);
            }
        }
    }
}

/// What a push adds to the frames seen.
proof fn lemma_seen_push(before: Seq<u64>, after: Seq<u64>, t: u64)
    requires
        after == before.push(t),
    ensures
        forall|f: u64| after.contains(f) <==> before.contains(f) || f == t,
{
    assert forall|f: u64| after.contains(f) <==> before.contains(f) || f == t by {
        if before.contains(f) {
            let i = choose|i: int| 0 <= i < before.len() && before[i] == f;
            assert(after[i] == f);
        }
        if f == t {
            assert(after[before.len() as int] == t);
        }
        if after.contains(f) {
            let i = choose|i: int| 0 <= i < after.len() && after[i] == f;
            if i < before.len() {
                assert(before[i] == f);
            }
        }
    }
}

} // verus!

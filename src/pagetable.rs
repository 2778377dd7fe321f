//! A multi-level page table, generic over the architecture's entry format,
//! whose nodes are frames of a physical-memory arena.

use vstd::prelude::*;
use core::marker::PhantomData;
use crate::addr::{spec_index, PhysAddr, PhysPageNum, VirtAddr, VirtPageNum};
use crate::error::MmError;
use crate::flags::{PTEFlags, PTOps, PageTableEntry, FLAG_V};
use crate::frame_allocator::{frame_alloc, frame_dealloc, FrameTracker, StackFrameAllocator};
use crate::phys::PhysMemory;

verus! {

/// The frame reached after following `k` levels of the walk for `vpn` from
/// the table rooted at `root`, or `None` where an entry on the way is invalid
/// or points outside the arena.
pub open spec fn spec_reach<T: PTOps>(mem: PhysMemory, root: usize, vpn: usize, k: nat) -> Option<usize>
    decreases k,
{
    if k == 0 {
        if mem.has_frame(root) {
            Some(root)
        } else {
            None
        }
    } else {
        match spec_reach::<T>(mem, root, vpn, (k - 1) as nat) {
            Some(f) => {
                let e = mem.spec_entry(f, spec_index(vpn, T::spec_levels(), (k - 1) as nat));
                if T::spec_valid(e) && mem.has_frame(T::spec_ppn(e)) {
                    Some(T::spec_ppn(e))
                } else {
                    None
                }
            },
            None => None,
        }
    }
}

/// The valid leaf entry that maps `vpn`, if any.
pub open spec fn spec_translate<T: PTOps>(mem: PhysMemory, root: usize, vpn: usize) -> Option<u64> {
    let last = (T::spec_levels() - 1) as nat;
    match spec_reach::<T>(mem, root, vpn, last) {
        Some(f) => {
            let e = mem.spec_entry(f, spec_index(vpn, T::spec_levels(), last));
            if T::spec_valid(e) {
                Some(e)
            } else {
                None
            }
        },
        None => None,
    }
}

/// The slot that holds, or would hold, the leaf entry for `vpn`.
pub open spec fn spec_leaf_slot<T: PTOps>(mem: PhysMemory, root: usize, vpn: usize) -> Option<(usize, nat)> {
    let last = (T::spec_levels() - 1) as nat;
    match spec_reach::<T>(mem, root, vpn, last) {
        Some(f) => Some((f, spec_index(vpn, T::spec_levels(), last))),
        None => None,
    }
}

/// The deepest level, up to `k`, that the walk for `vpn` reaches.
pub open spec fn spec_depth<T: PTOps>(mem: PhysMemory, root: usize, vpn: usize, k: nat) -> nat
    decreases k,
{
    if k == 0 {
        0
    } else if spec_reach::<T>(mem, root, vpn, k).is_some() {
        k
    } else {
        spec_depth::<T>(mem, root, vpn, (k - 1) as nat)
    }
}

/// How many intermediate tables the walk for `vpn` lacks: those below the
/// deepest level it reaches.
pub open spec fn spec_missing_tables<T: PTOps>(mem: PhysMemory, root: usize, vpn: usize) -> nat {
    let last = (T::spec_levels() - 1) as nat;
    (last - spec_depth::<T>(mem, root, vpn, last)) as nat
}

/// The walk reaches its depth and no level below it.
proof fn lemma_depth<T: PTOps>(mem: PhysMemory, root: usize, vpn: usize, k: nat)
    requires
        spec_reach::<T>(mem, root, vpn, 0).is_some(),
    ensures
        spec_depth::<T>(mem, root, vpn, k) <= k,
        spec_reach::<T>(mem, root, vpn, spec_depth::<T>(mem, root, vpn, k)).is_some(),
        forall|m: nat|
            spec_depth::<T>(mem, root, vpn, k) < m <= k ==> #[trigger] spec_reach::<T>(mem, root, vpn, m).is_none(),
    decreases k,
{
    if k > 0 && spec_reach::<T>(mem, root, vpn, k).is_none() {
        lemma_depth::<T>(mem, root, vpn, (k - 1) as nat);
    }
}

/// A walk that stops after the root reaches depth zero.
proof fn lemma_depth_zero<T: PTOps>(mem: PhysMemory, root: usize, vpn: usize, k: nat)
    requires
        spec_reach::<T>(mem, root, vpn, 1).is_none(),
    ensures
        spec_depth::<T>(mem, root, vpn, k) == 0,
    decreases k,
{
    if k > 0 {
        lemma_reach_none::<T>(mem, root, vpn, 1, k);
        lemma_depth_zero::<T>(mem, root, vpn, (k - 1) as nat);
    }
}

/// The frames of a table: owned frames in the arena, distinct, the root
/// first at level 0, and every valid entry of a non-leaf owned frame pointing
/// to an owned frame one level down.
pub open spec fn spec_tree_ok<T: PTOps>(
    mem: PhysMemory,
    root: usize,
    owned: Seq<usize>,
    lv: Map<usize, nat>,
) -> bool {
    &&& mem.wf()
    &&& owned.len() > 0
    &&& owned[0] == root
    &&& owned.no_duplicates()
    &&& mem.spec_base() + mem.spec_npages() <= T::spec_max_ppn() + 1
    &&& forall|i: int|
        0 <= i < owned.len() ==> {
            &&& mem.has_frame(#[trigger] owned[i])
            &&& lv.contains_key(owned[i])
            &&& lv[owned[i]] < T::spec_levels()
        }
    &&& lv[root] == 0
    &&& forall|g: usize, j: nat|
        #![trigger mem.spec_entry(g, j)]
        owned.contains(g) && j < 512 && lv[g] + 1 < T::spec_levels() && T::spec_valid(mem.spec_entry(g, j))
            ==> {
            &&& owned.contains(T::spec_ppn(mem.spec_entry(g, j)))
            &&& lv[T::spec_ppn(mem.spec_entry(g, j))] == lv[g] + 1
        }
    &&& forall|g1: usize, j1: nat, g2: usize, j2: nat|
        #![trigger mem.spec_entry(g1, j1), mem.spec_entry(g2, j2)]
        owned.contains(g1) && owned.contains(g2) && j1 < 512 && j2 < 512 && lv[g1] + 1 < T::spec_levels() && lv[g2]
            + 1 < T::spec_levels() && T::spec_valid(mem.spec_entry(g1, j1)) && T::spec_valid(mem.spec_entry(g2, j2))
            && T::spec_ppn(mem.spec_entry(g1, j1)) == T::spec_ppn(mem.spec_entry(g2, j2)) ==> g1 == g2 && j1 == j2
}

/// Whether two pages use the same table index at every level.
pub open spec fn spec_same_indices<T: PTOps>(v: usize, w: usize) -> bool {
    forall|m: nat| m < T::spec_levels() ==> #[trigger] spec_index(v, T::spec_levels(), m) == spec_index(w, T::spec_levels(), m)
}

/// The owned frames are live in the allocator, whose range lies in the arena.
pub open spec fn spec_frames_live(
    owned: Seq<usize>,
    mem_base: nat,
    mem_npages: nat,
    allocator: StackFrameAllocator,
) -> bool {
    &&& allocator.wf()
    &&& mem_base <= allocator.spec_start()
    &&& allocator.spec_end() <= mem_base + mem_npages
    &&& forall|i: int| 0 <= i < owned.len() ==> allocator.is_live(#[trigger] owned[i])
}

/// A walk that stopped stays stopped.
proof fn lemma_reach_none<T: PTOps>(mem: PhysMemory, root: usize, vpn: usize, j: nat, k: nat)
    requires
        j <= k,
        spec_reach::<T>(mem, root, vpn, j).is_none(),
    ensures
        spec_reach::<T>(mem, root, vpn, k).is_none(),
    decreases k - j,
{
    if j < k {
        lemma_reach_none::<T>(mem, root, vpn, j, (k - 1) as nat);
    }
}

/// Every frame that the walk reaches at level `k` is owned, at level `k`.
proof fn lemma_reach_owned<T: PTOps>(
    mem: PhysMemory,
    root: usize,
    owned: Seq<usize>,
    lv: Map<usize, nat>,
    vpn: usize,
    k: nat,
)
    requires
        spec_tree_ok::<T>(mem, root, owned, lv),
        k < T::spec_levels(),
        spec_reach::<T>(mem, root, vpn, k).is_some(),
    ensures
        owned.contains(spec_reach::<T>(mem, root, vpn, k).unwrap()),
        lv[spec_reach::<T>(mem, root, vpn, k).unwrap()] == k,
    decreases k,
{
    if k == 0 {
        assert(owned[0] == root);
    } else {
        lemma_reach_owned::<T>(mem, root, owned, lv, vpn, (k - 1) as nat);
        let f = spec_reach::<T>(mem, root, vpn, (k - 1) as nat).unwrap();
        let j = spec_index(vpn, T::spec_levels(), (k - 1) as nat);
        assert(j < 512);
        let e = mem.spec_entry(f, j);
        assert(T::spec_valid(e));
    }
}

/// A walk only reads frames above level `k` on its way to level `k`: where
/// those agree, it reaches the same frame.
proof fn lemma_reach_stable<T: PTOps>(
    mem1: PhysMemory,
    mem2: PhysMemory,
    root: usize,
    owned: Seq<usize>,
    lv: Map<usize, nat>,
    vpn: usize,
    k: nat,
)
    requires
        spec_tree_ok::<T>(mem1, root, owned, lv),
        k < T::spec_levels(),
        mem2.spec_base() == mem1.spec_base(),
        mem2.spec_npages() == mem1.spec_npages(),
        forall|g: usize, j: nat|
            #![trigger mem2.spec_entry(g, j)]
            owned.contains(g) && lv[g] < k && j < 512 ==> mem2.spec_entry(g, j) == mem1.spec_entry(g, j),
    ensures
        spec_reach::<T>(mem2, root, vpn, k) == spec_reach::<T>(mem1, root, vpn, k),
    decreases k,
{
    if k > 0 {
        lemma_reach_stable::<T>(mem1, mem2, root, owned, lv, vpn, (k - 1) as nat);
        match spec_reach::<T>(mem1, root, vpn, (k - 1) as nat) {
            Some(f) => {
                lemma_reach_owned::<T>(mem1, root, owned, lv, vpn, (k - 1) as nat);
                let j = spec_index(vpn, T::spec_levels(), (k - 1) as nat);
                assert(mem2.spec_entry(f, j) == mem1.spec_entry(f, j));
            },
            None => {},
        }
    }
}

/// From level `k0` on, a walk that agrees at `k0` keeps agreeing where the
/// frames of levels `k0` to `k - 1` are unchanged.
proof fn lemma_reach_stable_from<T: PTOps>(
    mem1: PhysMemory,
    mem2: PhysMemory,
    root: usize,
    owned: Seq<usize>,
    lv: Map<usize, nat>,
    vpn: usize,
    k0: nat,
    k: nat,
)
    requires
        spec_tree_ok::<T>(mem1, root, owned, lv),
        k0 <= k < T::spec_levels(),
        mem2.spec_base() == mem1.spec_base(),
        mem2.spec_npages() == mem1.spec_npages(),
        spec_reach::<T>(mem2, root, vpn, k0) == spec_reach::<T>(mem1, root, vpn, k0),
        forall|g: usize, j: nat|
            #![trigger mem2.spec_entry(g, j)]
            owned.contains(g) && k0 <= lv[g] < k && j < 512 ==> mem2.spec_entry(g, j) == mem1.spec_entry(g, j),
    ensures
        spec_reach::<T>(mem2, root, vpn, k) == spec_reach::<T>(mem1, root, vpn, k),
    decreases k,
{
    if k > k0 {
        lemma_reach_stable_from::<T>(mem1, mem2, root, owned, lv, vpn, k0, (k - 1) as nat);
        match spec_reach::<T>(mem1, root, vpn, (k - 1) as nat) {
            Some(f) => {
                lemma_reach_owned::<T>(mem1, root, owned, lv, vpn, (k - 1) as nat);
                let j = spec_index(vpn, T::spec_levels(), (k - 1) as nat);
                assert(mem2.spec_entry(f, j) == mem1.spec_entry(f, j));
            },
            None => {},
        }
    }
}

/// Where no valid entry of an owned frame changes, every walk that reached a
/// frame still reaches it.
proof fn lemma_reach_kept<T: PTOps>(
    mem1: PhysMemory,
    mem2: PhysMemory,
    root: usize,
    owned: Seq<usize>,
    lv: Map<usize, nat>,
    vpn: usize,
    k: nat,
)
    requires
        spec_tree_ok::<T>(mem1, root, owned, lv),
        k < T::spec_levels(),
        mem2.spec_base() == mem1.spec_base(),
        mem2.spec_npages() == mem1.spec_npages(),
        forall|g: usize, j: nat|
            #![trigger mem2.spec_entry(g, j)]
            owned.contains(g) && j < 512 && T::spec_valid(mem1.spec_entry(g, j)) ==> mem2.spec_entry(g, j)
                == mem1.spec_entry(g, j),
        spec_reach::<T>(mem1, root, vpn, k).is_some(),
    ensures
        spec_reach::<T>(mem2, root, vpn, k) == spec_reach::<T>(mem1, root, vpn, k),
    decreases k,
{
    if k > 0 {
        if spec_reach::<T>(mem1, root, vpn, (k - 1) as nat).is_none() {
            lemma_reach_none::<T>(mem1, root, vpn, (k - 1) as nat, k);
        }
        lemma_reach_kept::<T>(mem1, mem2, root, owned, lv, vpn, (k - 1) as nat);
        lemma_reach_owned::<T>(mem1, root, owned, lv, vpn, (k - 1) as nat);
        let f = spec_reach::<T>(mem1, root, vpn, (k - 1) as nat).unwrap();
        let j = spec_index(vpn, T::spec_levels(), (k - 1) as nat);
        assert(mem2.spec_entry(f, j) == mem1.spec_entry(f, j));
    }
}

/// Where no valid entry of an owned frame changes, every existing mapping
/// stays as it was.
proof fn lemma_lookup_kept<T: PTOps>(
    mem1: PhysMemory,
    mem2: PhysMemory,
    root: usize,
    owned: Seq<usize>,
    lv: Map<usize, nat>,
)
    requires
        spec_tree_ok::<T>(mem1, root, owned, lv),
        mem2.spec_base() == mem1.spec_base(),
        mem2.spec_npages() == mem1.spec_npages(),
        forall|g: usize, j: nat|
            #![trigger mem2.spec_entry(g, j)]
            owned.contains(g) && j < 512 && T::spec_valid(mem1.spec_entry(g, j)) ==> mem2.spec_entry(g, j)
                == mem1.spec_entry(g, j),
    ensures
        forall|v: usize| #[trigger]
            spec_translate::<T>(mem1, root, v).is_some() ==> spec_translate::<T>(mem2, root, v)
                == spec_translate::<T>(mem1, root, v),
{
    T::lemma_encoding();
    assert forall|v: usize| #[trigger]
        spec_translate::<T>(mem1, root, v).is_some() implies spec_translate::<T>(mem2, root, v)
            == spec_translate::<T>(mem1, root, v) by {
        let last = (T::spec_levels() - 1) as nat;
        lemma_reach_kept::<T>(mem1, mem2, root, owned, lv, v, last);
        lemma_reach_owned::<T>(mem1, root, owned, lv, v, last);
        let f = spec_reach::<T>(mem1, root, v, last).unwrap();
        let j = spec_index(v, T::spec_levels(), last);
        assert(mem2.spec_entry(f, j) == mem1.spec_entry(f, j));
    }
}

/// Every table has one parent entry, so two walks that meet at level `k`
/// took the same indices above it.
proof fn lemma_same_reach<T: PTOps>(
    mem: PhysMemory,
    root: usize,
    owned: Seq<usize>,
    lv: Map<usize, nat>,
    v: usize,
    w: usize,
    k: nat,
)
    requires
        spec_tree_ok::<T>(mem, root, owned, lv),
        k < T::spec_levels(),
        spec_reach::<T>(mem, root, v, k).is_some(),
        spec_reach::<T>(mem, root, v, k) == spec_reach::<T>(mem, root, w, k),
    ensures
        forall|m: nat| m < k ==> #[trigger] spec_index(v, T::spec_levels(), m) == spec_index(w, T::spec_levels(), m),
    decreases k,
{
    if k > 0 {
        let km = (k - 1) as nat;
        if spec_reach::<T>(mem, root, v, km).is_none() {
            lemma_reach_none::<T>(mem, root, v, km, k);
        }
        if spec_reach::<T>(mem, root, w, km).is_none() {
            lemma_reach_none::<T>(mem, root, w, km, k);
        }
        lemma_reach_owned::<T>(mem, root, owned, lv, v, km);
        lemma_reach_owned::<T>(mem, root, owned, lv, w, km);
        let gv = spec_reach::<T>(mem, root, v, km).unwrap();
        let gw = spec_reach::<T>(mem, root, w, km).unwrap();
        let jv = spec_index(v, T::spec_levels(), km);
        let jw = spec_index(w, T::spec_levels(), km);
        assert(mem.spec_entry(gv, jv) == mem.spec_entry(gv, jv) && mem.spec_entry(gw, jw) == mem.spec_entry(gw, jw));
        assert(gv == gw && jv == jw);
        lemma_same_reach::<T>(mem, root, owned, lv, v, w, km);
    }
}

/// The tables appended to `owned` after its first `n0` frames continue the
/// walk for `vpn` below level `d` down to level `top`: each is linked from
/// its parent by an intermediate entry, and holds nothing but the link to
/// the next one.
#[verifier::opaque]
pub open spec fn spec_new_tables<T: PTOps>(
    mem: PhysMemory,
    root: usize,
    vpn: usize,
    owned: Seq<usize>,
    n0: nat,
    d: nat,
    top: nat,
) -> bool {
    &&& forall|m: nat|
        d < m <= top ==> #[trigger] spec_reach::<T>(mem, root, vpn, m) == Some(owned[n0 + m - d - 1])
    &&& forall|m: nat|
        d <= m < top ==> mem.spec_entry(
            #[trigger] spec_reach::<T>(mem, root, vpn, m).unwrap(),
            spec_index(vpn, T::spec_levels(), m),
        ) == T::spec_intermediate(spec_reach::<T>(mem, root, vpn, m + 1).unwrap())
    &&& forall|i: int, j: nat|
        n0 <= i < owned.len() && j < 512 && j != spec_index(vpn, T::spec_levels(), (d + 1 + i - n0) as nat)
            ==> #[trigger] mem.spec_entry(owned[i], j) == 0
}

/// Before the walk passes its depth no table is new.
proof fn lemma_new_tables_none<T: PTOps>(
    mem: PhysMemory,
    root: usize,
    vpn: usize,
    owned: Seq<usize>,
    n0: nat,
    d: nat,
    top: nat,
)
    requires
        top <= d,
        owned.len() == n0,
    ensures
        spec_new_tables::<T>(mem, root, vpn, owned, n0, d, top),
{
    reveal(spec_new_tables);
}

/// Linking one more zeroed table below `cur` extends the new tables by one
/// level.
proof fn lemma_new_tables_step<T: PTOps>(
    mem1: PhysMemory,
    mem2: PhysMemory,
    root: usize,
    vpn: usize,
    owned1: Seq<usize>,
    lv1: Map<usize, nat>,
    n0: nat,
    d: nat,
    level: nat,
    cur: usize,
    next: usize,
)
    requires
        spec_tree_ok::<T>(mem1, root, owned1, lv1),
        spec_new_tables::<T>(mem1, root, vpn, owned1, n0, d, level),
        d <= level,
        level + 1 < T::spec_levels(),
        owned1.len() == n0 + level - d,
        spec_reach::<T>(mem1, root, vpn, level) == Some(cur),
        level > d ==> cur == owned1[owned1.len() - 1],
        level > d ==> forall|j: nat| j < 512 ==> #[trigger] mem1.spec_entry(cur, j) == 0,
        !owned1.contains(next),
        mem2.spec_base() == mem1.spec_base(),
        mem2.spec_npages() == mem1.spec_npages(),
        mem2.spec_entry(cur, spec_index(vpn, T::spec_levels(), level)) == T::spec_intermediate(next),
        forall|j: nat| j < 512 ==> #[trigger] mem2.spec_entry(next, j) == 0,
        forall|g: usize, j: nat|
            #![trigger mem2.spec_entry(g, j)]
            mem1.has_frame(g) && j < 512 && g != next && (g != cur || j != spec_index(vpn, T::spec_levels(), level))
                ==> mem2.spec_entry(g, j) == mem1.spec_entry(g, j),
        spec_reach::<T>(mem2, root, vpn, level + 1) == Some(next),
    ensures
        spec_new_tables::<T>(mem2, root, vpn, owned1.push(next), n0, d, level + 1),
{
    reveal(spec_new_tables);
    let owned2 = owned1.push(next);
    lemma_reach_owned::<T>(mem1, root, owned1, lv1, vpn, level);
    assert forall|m: nat| m <= level implies #[trigger] spec_reach::<T>(mem2, root, vpn, m) == spec_reach::<T>(
        mem1,
        root,
        vpn,
        m,
    ) by {
        assert forall|g: usize, j: nat|
            #![trigger mem2.spec_entry(g, j)]
            owned1.contains(g) && lv1[g] < m && j < 512 implies mem2.spec_entry(g, j) == mem1.spec_entry(g, j) by {
            assert(g != cur);
        }
        lemma_reach_stable::<T>(mem1, mem2, root, owned1, lv1, vpn, m);
    }
    assert forall|m: nat| d < m <= level + 1 implies #[trigger] spec_reach::<T>(mem2, root, vpn, m) == Some(
        owned2[n0 + m - d - 1],
    ) by {
        if m <= level {
            assert(spec_reach::<T>(mem1, root, vpn, m) == Some(owned1[n0 + m - d - 1]));
        }
    }
    assert forall|m: nat| d <= m < level + 1 implies mem2.spec_entry(
        #[trigger] spec_reach::<T>(mem2, root, vpn, m).unwrap(),
        spec_index(vpn, T::spec_levels(), m),
    ) == T::spec_intermediate(spec_reach::<T>(mem2, root, vpn, m + 1).unwrap()) by {
        if m < level {
            let g = spec_reach::<T>(mem1, root, vpn, m).unwrap();
            if spec_reach::<T>(mem1, root, vpn, m).is_none() {
                lemma_reach_none::<T>(mem1, root, vpn, m, level);
            }
            lemma_reach_owned::<T>(mem1, root, owned1, lv1, vpn, m);
            let j = spec_index(vpn, T::spec_levels(), m);
            assert(mem1.spec_entry(g, j) == T::spec_intermediate(spec_reach::<T>(mem1, root, vpn, m + 1).unwrap()));
            assert(g != cur);
            assert(g != next);
            assert(mem2.spec_entry(g, j) == mem1.spec_entry(g, j));
        }
    }
    assert forall|i: int, j: nat|
        n0 <= i < owned2.len() && j < 512 && j != spec_index(vpn, T::spec_levels(), (d + 1 + i - n0) as nat)
            implies #[trigger] mem2.spec_entry(owned2[i], j) == 0 by {
        if i == owned1.len() {
        } else {
            assert(owned2[i] == owned1[i]);
            assert(owned1.contains(owned1[i]));
            assert(mem1.has_frame(owned1[i]));
            assert(owned1[i] != next);
            if owned1[i] == cur {
                assert(i == owned1.len() - 1) by {
                    assert(owned1.no_duplicates());
                }
                assert(mem1.spec_entry(cur, j) == 0);
            } else {
                assert(mem2.spec_entry(owned1[i], j) == mem1.spec_entry(owned1[i], j));
            }
        }
    }
}

/// Writing the leaf slot at the end of the walk keeps the new tables as
/// they were, apart from that slot.
proof fn lemma_new_tables_leaf<T: PTOps>(
    mem1: PhysMemory,
    mem2: PhysMemory,
    root: usize,
    vpn: usize,
    owned: Seq<usize>,
    lv: Map<usize, nat>,
    n0: nat,
    d: nat,
    f: usize,
)
    requires
        spec_tree_ok::<T>(mem1, root, owned, lv),
        d < T::spec_levels(),
        spec_new_tables::<T>(mem1, root, vpn, owned, n0, d, (T::spec_levels() - 1) as nat),
        n0 <= owned.len() <= n0 + T::spec_levels() - 1 - d,
        spec_reach::<T>(mem1, root, vpn, (T::spec_levels() - 1) as nat) == Some(f),
        mem2.spec_base() == mem1.spec_base(),
        mem2.spec_npages() == mem1.spec_npages(),
        forall|g: usize, j: nat|
            #![trigger mem2.spec_entry(g, j)]
            mem1.has_frame(g) && j < 512 && (g != f || j != spec_index(vpn, T::spec_levels(), (T::spec_levels() - 1) as nat))
                ==> mem2.spec_entry(g, j) == mem1.spec_entry(g, j),
    ensures
        spec_new_tables::<T>(mem2, root, vpn, owned, n0, d, (T::spec_levels() - 1) as nat),
{
    reveal(spec_new_tables);
    let last = (T::spec_levels() - 1) as nat;
    lemma_reach_owned::<T>(mem1, root, owned, lv, vpn, last);
    assert forall|m: nat| m <= last implies #[trigger] spec_reach::<T>(mem2, root, vpn, m) == spec_reach::<T>(
        mem1,
        root,
        vpn,
        m,
    ) by {
        assert forall|g: usize, j: nat|
            #![trigger mem2.spec_entry(g, j)]
            owned.contains(g) && lv[g] < m && j < 512 implies mem2.spec_entry(g, j) == mem1.spec_entry(g, j) by {
            assert(g != f);
        }
        lemma_reach_stable::<T>(mem1, mem2, root, owned, lv, vpn, m);
    }
    assert forall|m: nat| d <= m < last implies mem2.spec_entry(
        #[trigger] spec_reach::<T>(mem2, root, vpn, m).unwrap(),
        spec_index(vpn, T::spec_levels(), m),
    ) == T::spec_intermediate(spec_reach::<T>(mem2, root, vpn, m + 1).unwrap()) by {
        if spec_reach::<T>(mem1, root, vpn, m).is_none() {
            lemma_reach_none::<T>(mem1, root, vpn, m, last);
        }
        lemma_reach_owned::<T>(mem1, root, owned, lv, vpn, m);
        let g = spec_reach::<T>(mem1, root, vpn, m).unwrap();
        assert(g != f);
        assert(mem1.spec_entry(g, spec_index(vpn, T::spec_levels(), m)) == T::spec_intermediate(
            spec_reach::<T>(mem1, root, vpn, m + 1).unwrap(),
        ));
    }
    assert forall|i: int, j: nat|
        n0 <= i < owned.len() && j < 512 && j != spec_index(vpn, T::spec_levels(), (d + 1 + i - n0) as nat)
            implies #[trigger] mem2.spec_entry(owned[i], j) == 0 by {
        let m = (d + 1 + i - n0) as nat;
        assert(spec_reach::<T>(mem1, root, vpn, m) == Some(owned[i]));
        lemma_reach_owned::<T>(mem1, root, owned, lv, vpn, m);
        assert(mem1.has_frame(owned[i]));
        assert(mem1.spec_entry(owned[i], j) == 0);
    }
}

/// Changing only leaf-level frames, or frames the table does not own, keeps
/// the tree's shape.
proof fn lemma_tree_ok_kept<T: PTOps>(
    mem1: PhysMemory,
    mem2: PhysMemory,
    root: usize,
    owned: Seq<usize>,
    lv: Map<usize, nat>,
)
    requires
        spec_tree_ok::<T>(mem1, root, owned, lv),
        mem2.wf(),
        mem2.spec_base() == mem1.spec_base(),
        mem2.spec_npages() == mem1.spec_npages(),
        forall|g: usize, j: nat|
            #![trigger mem2.spec_entry(g, j)]
            owned.contains(g) && lv[g] + 1 < T::spec_levels() && j < 512 ==> mem2.spec_entry(g, j)
                == mem1.spec_entry(g, j),
    ensures
        spec_tree_ok::<T>(mem2, root, owned, lv),
{
    assert forall|g: usize, j: nat|
        #![trigger mem2.spec_entry(g, j)]
        owned.contains(g) && j < 512 && lv[g] + 1 < T::spec_levels() && T::spec_valid(mem2.spec_entry(g, j))
            implies owned.contains(T::spec_ppn(mem2.spec_entry(g, j))) && lv[T::spec_ppn(mem2.spec_entry(g, j))]
            == lv[g] + 1 by {
        assert(mem2.spec_entry(g, j) == mem1.spec_entry(g, j));
    }
    assert forall|g1: usize, j1: nat, g2: usize, j2: nat|
        #![trigger mem2.spec_entry(g1, j1), mem2.spec_entry(g2, j2)]
        owned.contains(g1) && owned.contains(g2) && j1 < 512 && j2 < 512 && lv[g1] + 1 < T::spec_levels() && lv[g2]
            + 1 < T::spec_levels() && T::spec_valid(mem2.spec_entry(g1, j1)) && T::spec_valid(mem2.spec_entry(g2, j2))
            && T::spec_ppn(mem2.spec_entry(g1, j1)) == T::spec_ppn(mem2.spec_entry(g2, j2)) implies g1 == g2 && j1 == j2 by {
        assert(mem2.spec_entry(g1, j1) == mem1.spec_entry(g1, j1));
        assert(mem2.spec_entry(g2, j2) == mem1.spec_entry(g2, j2));
    }
}

/// The physical address that `va` translates to through the table at `root`.
pub open spec fn spec_translate_addr<T: PTOps>(mem: PhysMemory, root: usize, va: usize) -> Option<PhysAddr> {
    match spec_translate::<T>(mem, root, crate::addr::spec_floor(va) as usize) {
        Some(e) => if T::spec_ppn(e) <= crate::addr::MAX_PAGE_NUM {
            Some(PhysAddr((crate::addr::spec_page_to_addr(T::spec_ppn(e)) + crate::addr::spec_page_offset(va)) as usize))
        } else {
            None
        },
        None => None,
    }
}

/// After `map(vpn, ppn, flags)`, translating `vpn` yields an entry holding
/// `ppn` and exactly `flags` with Valid added.
pub proof fn lemma_map_then_translate<T: PTOps>(
    pt: PageTable<T>,
    mem: PhysMemory,
    vpn: VirtPageNum,
    ppn: PhysPageNum,
    flags: PTEFlags,
)
    requires
        pt.spec_lookup(mem, vpn.0) == Some(T::spec_leaf(ppn.0, flags.bits)),
        ppn.0 <= T::spec_max_ppn(),
        flags.wf(),
    ensures
        pt.spec_lookup(mem, vpn.0).is_some(),
        T::spec_ppn(pt.spec_lookup(mem, vpn.0).unwrap()) == ppn.0,
        T::spec_flags(pt.spec_lookup(mem, vpn.0).unwrap()) == flags.bits | FLAG_V,
{
    T::lemma_encoding();
    let f = flags.bits;
    assert((f & 0xff) | 1 == f | 1) by (bit_vector)
        requires
            f <= 0xff,
    ;
}

/// Mapping a page that is mapped already is a caller error: `map` does not
/// admit it.
pub proof fn lemma_double_map_excluded<T: PTOps>(
    pt: PageTable<T>,
    mem: PhysMemory,
    allocator: StackFrameAllocator,
    vpn: usize,
    ppn: usize,
)
    requires
        pt.spec_lookup(mem, vpn).is_some(),
    ensures
        !pt.can_map(mem, allocator, vpn, ppn),
{
}

/// Unmapping a page that is not mapped is a caller error: `unmap` does not
/// admit it.
pub proof fn lemma_unmap_unmapped_excluded<T: PTOps>(pt: PageTable<T>, mem: PhysMemory, vpn: usize)
    requires
        pt.spec_lookup(mem, vpn).is_none(),
    ensures
        !pt.can_unmap(mem, vpn),
{
}

/// A page table over the arena, for the entry format `T`.
pub struct PageTable<T: PTOps> {
    root_ppn: PhysPageNum,
    frames: Vec<FrameTracker>,
    level_of: Ghost<Map<usize, nat>>,
    phantom: PhantomData<T>,
}

impl<T: PTOps> PageTable<T> {
    /// Root frame.
    pub closed spec fn spec_root(&self) -> usize {
        self.root_ppn.0
    }

    /// Frames the table owns, the root first.
    pub closed spec fn spec_owned(&self) -> Seq<usize> {
        self.frames@.map_values(|t: FrameTracker| t.ppn.0)
    }

    /// The table's frames form a well-shaped tree in `mem`.
    pub closed spec fn tree_wf(&self, mem: PhysMemory) -> bool {
        spec_tree_ok::<T>(mem, self.root_ppn.0, self.spec_owned(), self.level_of@)
    }

    /// The table's frames are live in `allocator`, which lies in the arena.
    pub closed spec fn frames_live(&self, mem_base: nat, mem_npages: nat, allocator: StackFrameAllocator) -> bool {
        spec_frames_live(self.spec_owned(), mem_base, mem_npages, allocator)
    }

    /// The table can grow in `mem` with frames from `allocator`.
    pub open spec fn wf(&self, mem: PhysMemory, allocator: StackFrameAllocator) -> bool {
        &&& self.tree_wf(mem)
        &&& self.frames_live(mem.spec_base(), mem.spec_npages(), allocator)
    }

    /// The valid leaf entry mapping `vpn`.
    pub open spec fn spec_lookup(&self, mem: PhysMemory, vpn: usize) -> Option<u64> {
        spec_translate::<T>(mem, self.spec_root(), vpn)
    }

    /// What `map` needs: a table that owns its frames, in shape, with `vpn`
    /// not mapped yet and `ppn` within the format's range. Anything else is a
    /// caller error.
    pub open spec fn can_map(&self, mem: PhysMemory, allocator: StackFrameAllocator, vpn: usize, ppn: usize) -> bool {
        &&& self.spec_owned().len() > 0
        &&& self.wf(mem, allocator)
        &&& self.spec_lookup(mem, vpn).is_none()
        &&& ppn <= T::spec_max_ppn()
    }

    /// What `unmap` needs: a table that owns its frames, in shape, with
    /// `vpn` mapped. Anything else is a caller error.
    pub open spec fn can_unmap(&self, mem: PhysMemory, vpn: usize) -> bool {
        &&& self.spec_owned().len() > 0
        &&& self.tree_wf(mem)
        &&& self.spec_lookup(mem, vpn).is_some()
    }

    /// Root frame.
    pub fn root_ppn(&self) -> (r: PhysPageNum)
        ensures
            r.0 == self.spec_root(),
    {
        self.root_ppn
    }

    /// Number of frames the table owns.
    pub fn frame_count(&self) -> (r: usize)
        ensures
            r == self.spec_owned().len(),
    {
        self.frames.len()
    }

    /// Register value that installs this table.
    pub fn token(&self) -> (r: u64)
        requires
            self.spec_root() <= T::spec_max_ppn(),
        ensures
            r == T::spec_token(self.spec_root()),
    {
        T::token_from_ppn(self.root_ppn)
    }

    /// A lookup-only view of the table that a register value names; it owns
    /// no frame and cannot grow.
    pub fn from_token(token: u64) -> (r: PageTable<T>)
        ensures
            r.spec_root() == T::spec_ppn_of_token(token),
            r.spec_owned().len() == 0,
    {
        PageTable {
            root_ppn: T::ppn_from_token(token),
            frames: Vec::new(),
            level_of: Ghost(Map::empty()),
            phantom: PhantomData,
        }
    }
}

impl<T: PTOps> PageTable<T> {
    /// An empty table: one zeroed root frame taken from `allocator`.
    pub fn new(mem: &mut PhysMemory, allocator: &mut StackFrameAllocator) -> (r: Result<PageTable<T>, MmError>)
        requires
            old(mem).wf(),
            old(allocator).wf(),
            old(mem).spec_base() <= old(allocator).spec_start(),
            old(allocator).spec_end() <= old(mem).spec_base() + old(mem).spec_npages(),
            old(mem).spec_base() + old(mem).spec_npages() <= T::spec_max_ppn() + 1,
        ensures
            final(mem).wf(),
            final(mem).spec_base() == old(mem).spec_base(),
            final(mem).spec_npages() == old(mem).spec_npages(),
            final(allocator).wf(),
            final(allocator).spec_start() == old(allocator).spec_start(),
            final(allocator).spec_end() == old(allocator).spec_end(),
            r.is_ok() <==> old(allocator).spec_available() > 0,
            r.is_ok() <==> old(allocator).spec_next_frame().is_some(),
            r.is_ok() ==> r.unwrap().spec_root() == old(allocator).spec_next_frame().unwrap(),
            r.is_ok() ==> final(allocator).spec_available() + 1 == old(allocator).spec_available(),
            old(allocator).spec_recycled().len() > 0 ==> {
                &&& final(allocator).spec_recycled() == old(allocator).spec_recycled().drop_last()
                &&& final(allocator).spec_current() == old(allocator).spec_current()
            },
            old(allocator).spec_recycled().len() == 0 ==> {
                &&& final(allocator).spec_recycled() == old(allocator).spec_recycled()
                &&& final(allocator).spec_current() == old(allocator).spec_current() + (if r.is_ok() {
                    1int
                } else {
                    0int
                })
            },
            r.is_err() ==> r == Err::<PageTable<T>, MmError>(MmError::FramesExhausted),
            r.is_err() ==> *final(mem) == *old(mem),
            forall|f: usize, j: nat|
                #![trigger final(mem).spec_entry(f, j)]
                final(mem).has_frame(f) && j < 512 && (r.is_err() || f != r.unwrap().spec_root()) ==> final(mem).spec_entry(f, j)
                    == old(mem).spec_entry(f, j),
            r.is_ok() ==> {
                let pt = r.unwrap();
                &&& pt.wf(*final(mem), *final(allocator))
                &&& final(mem).has_frame(pt.spec_root())
                &&& pt.spec_owned() == seq![pt.spec_root()]
                &&& !old(allocator).is_live(pt.spec_root())
                &&& forall|vpn: usize| #[trigger] pt.spec_lookup(*final(mem), vpn).is_none()
                &&& forall|vpn: usize|
                    #[trigger] spec_missing_tables::<T>(*final(mem), pt.spec_root(), vpn) == T::spec_levels() - 1
            },
            forall|p: usize| #[trigger] old(allocator).is_live(p) ==> final(allocator).is_live(p),
    {
        proof {
            T::lemma_encoding();
        }
        let frame = match frame_alloc(allocator) {
            Some(f) => f,
            None => {
                return Err(MmError::FramesExhausted);
            },
        };
        let root = frame.ppn;
        mem.zero_frame(root);
        let mut frames: Vec<FrameTracker> = Vec::new();
        frames.push(frame);
        let pt = PageTable {
            root_ppn: root,
            frames,
            level_of: Ghost(Map::empty().insert(root.0, 0nat)),
            phantom: PhantomData,
        };
        proof {
            let owned = pt.spec_owned();
            assert(pt.frames@[0].ppn == root);
            assert(owned =~= seq![root.0]);
            assert(owned[0] == root.0);
            assert(owned.contains(root.0));
            assert(mem.has_frame(root.0));
            assert(spec_reach::<T>(*mem, root.0, 0usize, 0) == Some(root.0));
            assert forall|vpn: usize| #[trigger] pt.spec_lookup(*mem, vpn).is_none() by {
                let last = (T::spec_levels() - 1) as nat;
                let j = spec_index(vpn, T::spec_levels(), 0);
                assert(mem.spec_entry(root.0, j) == 0);
                if last > 0 {
                    assert(spec_reach::<T>(*mem, root.0, vpn, 0) == Some(root.0));
                    assert(!T::spec_valid(mem.spec_entry(root.0, j)));
                    assert(spec_reach::<T>(*mem, root.0, vpn, 1).is_none());
                    lemma_reach_none::<T>(*mem, root.0, vpn, 1, last);
                }
            }
            assert forall|vpn: usize|
                #[trigger] spec_missing_tables::<T>(*mem, root.0, vpn) == T::spec_levels() - 1 by {
                let last = (T::spec_levels() - 1) as nat;
                let j = spec_index(vpn, T::spec_levels(), 0);
                assert(mem.spec_entry(root.0, j) == 0);
                assert(spec_reach::<T>(*mem, root.0, vpn, 0) == Some(root.0));
                assert(spec_reach::<T>(*mem, root.0, vpn, 1).is_none());
                lemma_depth_zero::<T>(*mem, root.0, vpn, last);
            }
            assert forall|g: usize, j: nat|
                #![trigger mem.spec_entry(g, j)]
                owned.contains(g) && j < 512 && pt.level_of@[g] + 1 < T::spec_levels() && T::spec_valid(mem.spec_entry(g, j))
                    implies false by {
                assert(g == root.0);
            }
        }
        Ok(pt)
    }

    /// The leaf slot for `vpn`, creating zeroed intermediate tables on the
    /// way where entries are invalid. A table that owns no frame cannot grow
    /// and fails at once.
    #[verifier::rlimit(40)]
    pub fn find_or_create_pte(
        &mut self,
        mem: &mut PhysMemory,
        allocator: &mut StackFrameAllocator,
        vpn: VirtPageNum,
    ) -> (r: Result<(PhysPageNum, usize), MmError>)
        requires
            old(mem).wf(),
            old(allocator).wf(),
            old(self).spec_owned().len() > 0 ==> old(self).wf(*old(mem), *old(allocator)),
        ensures
            final(self).spec_root() == old(self).spec_root(),
            final(mem).spec_base() == old(mem).spec_base(),
            final(mem).spec_npages() == old(mem).spec_npages(),
            final(mem).wf(),
            final(allocator).wf(),
            old(self).spec_owned().len() == 0 ==> {
                &&& r == Err::<(PhysPageNum, usize), MmError>(MmError::NoOwnedFrames)
                &&& *final(mem) == *old(mem)
                &&& *final(allocator) == *old(allocator)
                &&& final(self).spec_owned().len() == 0
            },
            old(self).spec_owned().len() > 0 ==> {
                &&& final(self).wf(*final(mem), *final(allocator))
                &&& final(allocator).spec_start() == old(allocator).spec_start()
                &&& final(allocator).spec_end() == old(allocator).spec_end()
                &&& forall|p: usize| #[trigger] old(allocator).is_live(p) ==> final(allocator).is_live(p)
                &&& final(self).spec_lookup(*final(mem), vpn.0) == old(self).spec_lookup(*old(mem), vpn.0)
                &&& forall|g: usize, j: nat|
                    #![trigger final(mem).spec_entry(g, j)]
                    old(self).spec_owned().contains(g) && j < 512 && T::spec_valid(old(mem).spec_entry(g, j))
                        ==> final(mem).spec_entry(g, j) == old(mem).spec_entry(g, j)
                &&& forall|v: usize| #[trigger]
                    final(self).spec_lookup(*final(mem), v) == old(self).spec_lookup(*old(mem), v)
                &&& final(self).spec_owned().subrange(0, old(self).spec_owned().len() as int) == old(self).spec_owned()
                &&& old(self).spec_owned().len() <= final(self).spec_owned().len() <= old(self).spec_owned().len()
                    + T::spec_levels() - 1
                &&& final(allocator).spec_available() + final(self).spec_owned().len() == old(allocator).spec_available()
                    + old(self).spec_owned().len()
                &&& spec_missing_tables::<T>(*old(mem), old(self).spec_root(), vpn.0) < T::spec_levels()
                &&& r.is_ok() <==> old(allocator).spec_available() >= spec_missing_tables::<T>(
                    *old(mem),
                    old(self).spec_root(),
                    vpn.0,
                )
                &&& r.is_ok() ==> spec_new_tables::<T>(
                    *final(mem),
                    final(self).spec_root(),
                    vpn.0,
                    final(self).spec_owned(),
                    old(self).spec_owned().len() as nat,
                    spec_depth::<T>(*old(mem), old(self).spec_root(), vpn.0, (T::spec_levels() - 1) as nat),
                    (T::spec_levels() - 1) as nat,
                )
                &&& r.is_ok() && spec_missing_tables::<T>(*old(mem), old(self).spec_root(), vpn.0) > 0 ==> forall|j: nat|
                    j < 512 ==> #[trigger] final(mem).spec_entry(
                        final(self).spec_owned()[final(self).spec_owned().len() - 1],
                        j,
                    ) == 0
                &&& r.is_ok() ==> {
                    &&& spec_reach::<T>(*final(mem), final(self).spec_root(), vpn.0, (T::spec_levels() - 1) as nat)
                        == Some(r.unwrap().0.0)
                    &&& r.unwrap().1 == spec_index(vpn.0, T::spec_levels(), (T::spec_levels() - 1) as nat)
                    &&& final(self).spec_owned().len() == old(self).spec_owned().len() + spec_missing_tables::<T>(
                        *old(mem),
                        old(self).spec_root(),
                        vpn.0,
                    )
                }
                &&& r.is_err() ==> {
                    &&& r == Err::<(PhysPageNum, usize), MmError>(MmError::FramesExhausted)
                    &&& final(allocator).spec_available() == 0
                }
            },
    {
        if self.frames.len() == 0 {
            return Err(MmError::NoOwnedFrames);
        }
        proof {
            T::lemma_encoding();
        }
        let levels = T::page_table_levels();
        let ghost last = (levels - 1) as nat;
        let ghost root = self.root_ppn.0;
        let ghost mem0 = *mem;
        let ghost avail0 = allocator.spec_available();
        let ghost owned0 = self.spec_owned();
        let ghost lv0 = self.level_of@;
        let ghost created: nat = 0;
        let idxs = vpn.indices(levels);
        let mut cur = self.root_ppn;
        let mut level: usize = 0;
        let ghost d = spec_depth::<T>(mem0, root, vpn.0, last);
        proof {
            assert(owned0[0] == root);
            assert(mem.has_frame(root));
            lemma_depth::<T>(mem0, root, vpn.0, last);
            assert(self.spec_owned().subrange(0, owned0.len() as int) =~= owned0);
            lemma_new_tables_none::<T>(*mem, root, vpn.0, self.spec_owned(), owned0.len() as nat, d, 0);
        }
        while level + 1 < levels
            invariant
                levels == T::spec_levels(),
                1 <= levels <= 4,
                last == levels - 1,
                level + 1 <= levels,
                idxs@.len() == levels,
                forall|i: int| 0 <= i < levels ==> #[trigger] idxs@[i] == spec_index(vpn.0, levels as nat, i as nat),
                root == old(self).spec_root(),
                mem0 == *old(mem),
                owned0 == old(self).spec_owned(),
                owned0.len() > 0,
                avail0 == old(allocator).spec_available(),
                self.root_ppn.0 == root,
                self.wf(*mem, *allocator),
                mem.spec_base() == mem0.spec_base(),
                mem.spec_npages() == mem0.spec_npages(),
                allocator.spec_start() == old(allocator).spec_start(),
                allocator.spec_end() == old(allocator).spec_end(),
                forall|p: usize| #[trigger] old(allocator).is_live(p) ==> allocator.is_live(p),
                spec_reach::<T>(*mem, root, vpn.0, level as nat) == Some(cur.0),
                self.spec_owned().contains(cur.0),
                self.level_of@[cur.0] == level,
                spec_translate::<T>(mem0, root, vpn.0).is_some() ==> *mem == mem0,
                spec_translate::<T>(mem0, root, vpn.0).is_none() ==> spec_translate::<T>(*mem, root, vpn.0).is_none(),
                forall|g: usize, j: nat|
                    #![trigger mem.spec_entry(g, j)]
                    owned0.contains(g) && j < 512 && T::spec_valid(mem0.spec_entry(g, j)) ==> mem.spec_entry(g, j)
                        == mem0.spec_entry(g, j),
                forall|g: usize| owned0.contains(g) ==> #[trigger] self.spec_owned().contains(g),
                forall|v: usize| #[trigger]
                    spec_translate::<T>(*mem, root, v).is_some() ==> spec_translate::<T>(mem0, root, v).is_some(),
                lv0 == old(self).level_of@,
                spec_tree_ok::<T>(mem0, root, owned0, lv0),
                d == spec_depth::<T>(mem0, root, vpn.0, last),
                d <= last,
                spec_reach::<T>(mem0, root, vpn.0, d).is_some(),
                forall|m: nat| d < m <= last ==> #[trigger] spec_reach::<T>(mem0, root, vpn.0, m).is_none(),
                level <= d ==> created == 0 && *mem == mem0,
                level > d ==> created == level - d,
                level > d ==> forall|j: nat| j < 512 ==> #[trigger] mem.spec_entry(cur.0, j) == 0,
                level > d ==> cur.0 == self.spec_owned()[self.spec_owned().len() - 1],
                spec_new_tables::<T>(*mem, root, vpn.0, self.spec_owned(), owned0.len() as nat, d, level as nat),
                self.spec_owned().subrange(0, owned0.len() as int) == owned0,
                created <= level,
                allocator.spec_available() + created == avail0,
                self.spec_owned().len() == owned0.len() + created,
            decreases levels - level,
        {
            let i = idxs[level];
            let pte = PageTableEntry { bits: mem.read_entry(cur, i) };
            if T::pte_is_valid(&pte) {
                proof {
                    T::lemma_encoding();
                    if level > d {
                        assert(mem.spec_entry(cur.0, i as nat) == 0);
                    }
                    if level == d {
                        assert(spec_reach::<T>(mem0, root, vpn.0, (level + 1) as nat).is_some());
                    }
                    assert(level < d);
                }
                cur = T::pte_to_ppn(&pte);
                proof {
                    assert(mem.has_frame(cur.0));
                    lemma_new_tables_none::<T>(
                        *mem,
                        root,
                        vpn.0,
                        self.spec_owned(),
                        owned0.len() as nat,
                        d,
                        (level + 1) as nat,
                    );
                }
            } else {
                proof {
                    if level < d {
                        lemma_reach_none::<T>(mem0, root, vpn.0, (level + 1) as nat, d);
                    }
                    assert(level >= d);
                    assert(created == level - d);
                }
                proof {
                    lemma_reach_none::<T>(*mem, root, vpn.0, (level + 1) as nat, last);
                }
                let ghost mem1 = *mem;
                let ghost alloc1 = *allocator;
                let ghost owned1 = self.spec_owned();
                let ghost lv1 = self.level_of@;
                let frame = match frame_alloc(allocator) {
                    Some(f) => f,
                    None => {
                        proof {
                            lemma_lookup_kept::<T>(mem0, *mem, root, owned0, lv0);
                        }
                        return Err(MmError::FramesExhausted);
                    },
                };
                let next = frame.ppn;
                proof {
                    assert(!owned1.contains(next.0)) by {
                        if owned1.contains(next.0) {
                            let k = choose|k: int| 0 <= k < owned1.len() && owned1[k] == next.0;
                            assert(alloc1.is_live(owned1[k]));
                        }
                    }
                    assert(mem.has_frame(next.0));
                }
                mem.zero_frame(next);
                let entry = T::pte_new_intermediate(next);
                mem.write_entry(cur, i, entry.bits);
                self.frames.push(frame);
                self.level_of = Ghost(self.level_of@.insert(next.0, (level + 1) as nat));
                proof {
                    T::lemma_encoding();
                    created = created + 1;
                    assert(created == level + 1 - d);
                    let owned2 = self.spec_owned();
                    let lv2 = self.level_of@;
                    assert(owned2 =~= owned1.push(next.0));
                    assert(owned2.subrange(0, owned0.len() as int) =~= owned1.subrange(0, owned0.len() as int));
                    assert forall|j: nat| j < 512 implies #[trigger] mem.spec_entry(next.0, j) == 0 by {
                        assert(mem.spec_entry(next.0, j) == mem.spec_entry(next.0, j));
                    }
                    assert forall|g: usize| owned2.contains(g) <==> (owned1.contains(g) || g == next.0) by {
                        if owned2.contains(g) {
                            let k = choose|k: int| 0 <= k < owned2.len() && owned2[k] == g;
                            if k < owned1.len() {
                                assert(owned1[k] == g);
                            }
                        }
                        if owned1.contains(g) {
                            let k = choose|k: int| 0 <= k < owned1.len() && owned1[k] == g;
                            assert(owned2[k] == g);
                        }
                        if g == next.0 {
                            assert(owned2[owned1.len() as int] == g);
                        }
                    }
                    assert(cur.0 != next.0);
                    assert forall|g: usize| owned0.contains(g) implies #[trigger] owned2.contains(g) by {
                        assert(owned1.contains(g));
                    }
                    assert forall|g: usize, j: nat|
                        #![trigger mem.spec_entry(g, j)]
                        owned0.contains(g) && j < 512 && T::spec_valid(mem0.spec_entry(g, j)) implies mem.spec_entry(g, j)
                            == mem0.spec_entry(g, j) by {
                        assert(owned1.contains(g));
                        assert(g != next.0);
                        assert(mem1.spec_entry(g, j) == mem0.spec_entry(g, j));
                    }
                    // the walk down to `cur` reads only frames above it
                    assert forall|g: usize, j: nat|
                        #![trigger mem.spec_entry(g, j)]
                        owned1.contains(g) && lv1[g] < level && j < 512 implies mem.spec_entry(g, j) == mem1.spec_entry(g, j) by {
                        assert(g != cur.0);
                        assert(g != next.0);
                    }
                    lemma_reach_stable::<T>(mem1, *mem, root, owned1, lv1, vpn.0, level as nat);
                    assert(spec_reach::<T>(*mem, root, vpn.0, level as nat) == Some(cur.0));
                    assert(mem.spec_entry(cur.0, i as nat) == T::spec_intermediate(next.0));
                    assert(next.0 <= T::spec_max_ppn());
                    assert(T::spec_valid(T::spec_intermediate(next.0)));
                    assert(T::spec_ppn(T::spec_intermediate(next.0)) == next.0);
                    assert(spec_reach::<T>(*mem, root, vpn.0, (level + 1) as nat) == Some(next.0));
                    // below `next` everything is invalid
                    let j1 = spec_index(vpn.0, levels as nat, (level + 1) as nat);
                    assert(mem.spec_entry(next.0, j1) == 0);
                    if level + 2 < levels {
                        lemma_reach_none::<T>(*mem, root, vpn.0, (level + 2) as nat, last);
                    }
                    assert(spec_translate::<T>(*mem, root, vpn.0).is_none());
                    assert forall|g: usize, j: nat|
                        #![trigger mem.spec_entry(g, j)]
                        mem1.has_frame(g) && j < 512 && g != next.0 && (g != cur.0 || j != spec_index(
                            vpn.0,
                            T::spec_levels(),
                            level as nat,
                        )) implies mem.spec_entry(g, j) == mem1.spec_entry(g, j) by {
                        assert(mem.has_frame(g));
                    }
                    lemma_new_tables_step::<T>(
                        mem1,
                        *mem,
                        root,
                        vpn.0,
                        owned1,
                        lv1,
                        owned0.len() as nat,
                        d,
                        level as nat,
                        cur.0,
                        next.0,
                    );
                    assert(owned2[owned2.len() - 1] == next.0);
                    // no page becomes mapped: a walk through the new entry
                    // ends in the zeroed table, any other walk reads what it read
                    assert forall|v: usize| #[trigger]
                        spec_translate::<T>(*mem, root, v).is_some() implies spec_translate::<T>(mem1, root, v).is_some() by {
                        lemma_reach_stable::<T>(mem1, *mem, root, owned1, lv1, v, level as nat);
                        let jv = spec_index(v, levels as nat, level as nat);
                        if spec_reach::<T>(mem1, root, v, level as nat) == Some(cur.0) && jv == i {
                            assert(spec_reach::<T>(*mem, root, v, (level + 1) as nat) == Some(next.0));
                            let jn = spec_index(v, levels as nat, (level + 1) as nat);
                            assert(mem.spec_entry(next.0, jn) == 0);
                            if level + 2 < levels {
                                assert(spec_reach::<T>(*mem, root, v, (level + 2) as nat).is_none());
                                lemma_reach_none::<T>(*mem, root, v, (level + 2) as nat, last);
                            }
                        } else {
                            match spec_reach::<T>(mem1, root, v, level as nat) {
                                Some(g) => {
                                    lemma_reach_owned::<T>(mem1, root, owned1, lv1, v, level as nat);
                                    assert(g != next.0);
                                    assert(mem.spec_entry(g, jv) == mem1.spec_entry(g, jv));
                                },
                                None => {
                                    lemma_reach_none::<T>(mem1, root, v, level as nat, (level + 1) as nat);
                                    lemma_reach_none::<T>(*mem, root, v, level as nat, (level + 1) as nat);
                                },
                            }
                            assert(spec_reach::<T>(*mem, root, v, (level + 1) as nat) == spec_reach::<T>(mem1, root, v, (level + 1) as nat));
                            assert forall|g: usize, j: nat|
                                #![trigger mem.spec_entry(g, j)]
                                owned1.contains(g) && level + 1 <= lv1[g] < last && j < 512 implies mem.spec_entry(g, j)
                                    == mem1.spec_entry(g, j) by {
                                assert(g != cur.0);
                                assert(g != next.0);
                            }
                            lemma_reach_stable_from::<T>(mem1, *mem, root, owned1, lv1, v, (level + 1) as nat, last);
                            let f = spec_reach::<T>(mem1, root, v, last).unwrap();
                            lemma_reach_owned::<T>(mem1, root, owned1, lv1, v, last);
                            let jl = spec_index(v, levels as nat, last);
                            assert(f != cur.0);
                            assert(f != next.0);
                            assert(mem.spec_entry(f, jl) == mem1.spec_entry(f, jl));
                        }
                    }
                    // the tree shape is kept
                    assert forall|k: int| 0 <= k < owned2.len() implies {
                        &&& mem.has_frame(#[trigger] owned2[k])
                        &&& lv2.contains_key(owned2[k])
                        &&& lv2[owned2[k]] < T::spec_levels()
                    } by {
                        if k < owned1.len() {
                            assert(owned1[k] == owned2[k]);
                        }
                    }
                    assert(owned2.no_duplicates()) by {
                        assert forall|a: int, b: int| 0 <= a < owned2.len() && 0 <= b < owned2.len() && a != b
                            implies owned2[a] != owned2[b] by {
                            if a < owned1.len() && b < owned1.len() {
                            } else if a < owned1.len() {
                                assert(owned1.contains(owned2[a]));
                            } else if b < owned1.len() {
                                assert(owned1.contains(owned2[b]));
                            }
                        }
                    }
                    assert(owned2[0] == root);
                    assert forall|g: usize, j: nat|
                        #![trigger mem.spec_entry(g, j)]
                        owned2.contains(g) && j < 512 && lv2[g] + 1 < T::spec_levels() && T::spec_valid(mem.spec_entry(g, j))
                            implies owned2.contains(T::spec_ppn(mem.spec_entry(g, j))) && lv2[T::spec_ppn(mem.spec_entry(g, j))] == lv2[g] + 1 by {
                        if g == next.0 {
                            assert(mem.spec_entry(g, j) == 0);
                        } else if g == cur.0 && j == i {
                        } else {
                            assert(mem.spec_entry(g, j) == mem1.spec_entry(g, j));
                            assert(owned1.contains(g));
                            assert(owned1.contains(T::spec_ppn(mem1.spec_entry(g, j))));
                        }
                    }
                    assert forall|g1: usize, j1: nat, g2: usize, j2: nat|
                        #![trigger mem.spec_entry(g1, j1), mem.spec_entry(g2, j2)]
                        owned2.contains(g1) && owned2.contains(g2) && j1 < 512 && j2 < 512 && lv2[g1] + 1 < T::spec_levels()
                            && lv2[g2] + 1 < T::spec_levels() && T::spec_valid(mem.spec_entry(g1, j1)) && T::spec_valid(
                            mem.spec_entry(g2, j2),
                        ) && T::spec_ppn(mem.spec_entry(g1, j1)) == T::spec_ppn(mem.spec_entry(g2, j2)) implies g1 == g2 && j1
                            == j2 by {
                        if g1 == next.0 {
                            assert(mem.spec_entry(g1, j1) == 0);
                        } else if g2 == next.0 {
                            assert(mem.spec_entry(g2, j2) == 0);
                        } else {
                            let new1 = g1 == cur.0 && j1 == i;
                            let new2 = g2 == cur.0 && j2 == i;
                            if !new1 {
                                assert(mem.spec_entry(g1, j1) == mem1.spec_entry(g1, j1));
                                assert(owned1.contains(g1));
                                assert(owned1.contains(T::spec_ppn(mem1.spec_entry(g1, j1))));
                            }
                            if !new2 {
                                assert(mem.spec_entry(g2, j2) == mem1.spec_entry(g2, j2));
                                assert(owned1.contains(g2));
                                assert(owned1.contains(T::spec_ppn(mem1.spec_entry(g2, j2))));
                            }
                            if !new1 && !new2 {
                                assert(mem1.spec_entry(g1, j1) == mem1.spec_entry(g1, j1) && mem1.spec_entry(g2, j2)
                                    == mem1.spec_entry(g2, j2));
                            }
                        }
                    }
                    assert forall|k: int| 0 <= k < owned2.len() implies allocator.is_live(#[trigger] owned2[k]) by {
                        if k < owned1.len() {
                            assert(owned1[k] == owned2[k]);
                            assert(alloc1.is_live(owned1[k]));
                        }
                    }
                }
                cur = next;
            }
            level = level + 1;
        }
        proof {
            lemma_lookup_kept::<T>(mem0, *mem, root, owned0, lv0);
        }
        Ok((cur, idxs[levels - 1]))
    }

    /// Maps `vpn` to `ppn` with `flags`, creating intermediate tables as
    /// needed. The translation cache is left to the caller.
    pub fn map(
        &mut self,
        mem: &mut PhysMemory,
        allocator: &mut StackFrameAllocator,
        vpn: VirtPageNum,
        ppn: PhysPageNum,
        flags: PTEFlags,
    ) -> (r: Result<(), MmError>)
        requires
            old(mem).wf(),
            old(allocator).wf(),
            old(self).can_map(*old(mem), *old(allocator), vpn.0, ppn.0),
        ensures
            final(self).spec_root() == old(self).spec_root(),
            final(mem).spec_base() == old(mem).spec_base(),
            final(mem).spec_npages() == old(mem).spec_npages(),
            final(mem).wf(),
            final(allocator).wf(),
            final(self).wf(*final(mem), *final(allocator)),
            final(allocator).spec_start() == old(allocator).spec_start(),
            final(allocator).spec_end() == old(allocator).spec_end(),
            forall|p: usize| #[trigger] old(allocator).is_live(p) ==> final(allocator).is_live(p),
            old(self).spec_owned().len() <= final(self).spec_owned().len() <= old(self).spec_owned().len()
                + T::spec_levels() - 1,
            final(self).spec_owned().subrange(0, old(self).spec_owned().len() as int) == old(self).spec_owned(),
            final(allocator).spec_available() + final(self).spec_owned().len() == old(allocator).spec_available()
                + old(self).spec_owned().len(),
            r.is_ok() <==> old(allocator).spec_available() >= spec_missing_tables::<T>(
                *old(mem),
                old(self).spec_root(),
                vpn.0,
            ),
            r.is_ok() ==> final(self).spec_owned().len() == old(self).spec_owned().len() + spec_missing_tables::<T>(
                *old(mem),
                old(self).spec_root(),
                vpn.0,
            ),
            forall|v: usize| #[trigger]
                old(self).spec_lookup(*old(mem), v).is_some() ==> final(self).spec_lookup(*final(mem), v)
                    == old(self).spec_lookup(*old(mem), v),
            forall|v: usize| #[trigger]
                final(self).spec_lookup(*final(mem), v).is_some() ==> old(self).spec_lookup(*old(mem), v).is_some() || (r.is_ok()
                    && spec_same_indices::<T>(v, vpn.0)),
            r.is_ok() ==> final(self).spec_lookup(*final(mem), vpn.0) == Some(T::spec_leaf(ppn.0, flags.bits)),
            r.is_ok() ==> spec_new_tables::<T>(
                *final(mem),
                final(self).spec_root(),
                vpn.0,
                final(self).spec_owned(),
                old(self).spec_owned().len() as nat,
                spec_depth::<T>(*old(mem), old(self).spec_root(), vpn.0, (T::spec_levels() - 1) as nat),
                (T::spec_levels() - 1) as nat,
            ),
            r.is_err() ==> {
                &&& r == Err::<(), MmError>(MmError::FramesExhausted)
                &&& final(allocator).spec_available() == 0
                &&& final(self).spec_lookup(*final(mem), vpn.0).is_none()
            },
            old(allocator).spec_available() + 1 >= T::spec_levels() ==> r.is_ok(),
    {
        let ghost mem0 = *mem;
        let ghost owned0 = self.spec_owned();
        let ghost lv0 = self.level_of@;
        let ghost root0 = self.root_ppn.0;
        let res = self.find_or_create_pte(mem, allocator, vpn);
        proof {
            lemma_lookup_kept::<T>(mem0, *mem, root0, owned0, lv0);
        }
        match res {
            Err(e) => Err(e),
            Ok((f, i)) => {
                let ghost mem1 = *mem;
                let ghost root = self.root_ppn.0;
                let ghost owned = self.spec_owned();
                let ghost lv = self.level_of@;
                let ghost last = (T::spec_levels() - 1) as nat;
                proof {
                    T::lemma_encoding();
                    lemma_reach_owned::<T>(mem1, root, owned, lv, vpn.0, last);
                }
                let leaf = T::pte_new_leaf(ppn, flags);
                mem.write_entry(f, i, leaf.bits);
                proof {
                    assert forall|g: usize, j: nat|
                        #![trigger mem.spec_entry(g, j)]
                        owned.contains(g) && lv[g] < last && j < 512 implies mem.spec_entry(g, j) == mem1.spec_entry(g, j) by {
                        assert(g != f.0);
                    }
                    lemma_reach_stable::<T>(mem1, *mem, root, owned, lv, vpn.0, last);
                    assert forall|g: usize, j: nat|
                        #![trigger mem.spec_entry(g, j)]
                        owned.contains(g) && lv[g] + 1 < T::spec_levels() && j < 512 implies mem.spec_entry(g, j)
                            == mem1.spec_entry(g, j) by {
                        assert(g != f.0);
                    }
                    lemma_tree_ok_kept::<T>(mem1, *mem, root, owned, lv);
                    assert(T::spec_valid(T::spec_leaf(ppn.0, flags.bits)));
                    assert forall|g: usize, j: nat|
                        #![trigger mem.spec_entry(g, j)]
                        mem1.has_frame(g) && j < 512 && (g != f.0 || j != spec_index(vpn.0, T::spec_levels(), last))
                            implies mem.spec_entry(g, j) == mem1.spec_entry(g, j) by {
                        assert(mem.has_frame(g));
                    }
                    assert(owned0[0] == root0 && mem0.has_frame(owned0[0]));
                    lemma_depth::<T>(mem0, root0, vpn.0, last);
                    lemma_new_tables_leaf::<T>(
                        mem1,
                        *mem,
                        root,
                        vpn.0,
                        owned,
                        lv,
                        owned0.len() as nat,
                        spec_depth::<T>(mem0, root0, vpn.0, last),
                        f.0,
                    );
                    // the slot written was invalid, so no valid entry changed
                    assert(!T::spec_valid(mem1.spec_entry(f.0, i as nat)));
                    assert forall|g: usize, j: nat|
                        #![trigger mem.spec_entry(g, j)]
                        owned0.contains(g) && j < 512 && T::spec_valid(mem0.spec_entry(g, j)) implies mem.spec_entry(g, j)
                            == mem0.spec_entry(g, j) by {
                        assert(mem1.spec_entry(g, j) == mem0.spec_entry(g, j));
                    }
                    lemma_lookup_kept::<T>(mem0, *mem, root0, owned0, lv0);
                    assert forall|v: usize| #[trigger]
                        spec_translate::<T>(*mem, root, v).is_some() implies spec_translate::<T>(mem0, root, v).is_some()
                            || spec_leaf_slot::<T>(*mem, root, v) == spec_leaf_slot::<T>(*mem, root, vpn.0) by {
                        lemma_reach_stable::<T>(mem1, *mem, root, owned, lv, v, last);
                        let g = spec_reach::<T>(mem1, root, v, last).unwrap();
                        let jv = spec_index(v, T::spec_levels(), last);
                        if g != f.0 || jv != i {
                            assert(mem.spec_entry(g, jv) == mem1.spec_entry(g, jv));
                            assert(spec_translate::<T>(mem1, root, v).is_some());
                            assert(self.spec_lookup(mem1, v).is_some());
                        }
                    }
                    assert forall|v: usize| #[trigger]
                        spec_translate::<T>(*mem, root, v).is_some() implies spec_translate::<T>(mem0, root, v).is_some()
                            || spec_same_indices::<T>(v, vpn.0) by {
                        if !spec_translate::<T>(mem0, root, v).is_some() {
                            assert(spec_leaf_slot::<T>(*mem, root, v) == spec_leaf_slot::<T>(*mem, root, vpn.0));
                            lemma_same_reach::<T>(*mem, root, owned, lv, v, vpn.0, last);
                            assert forall|m: nat| m < T::spec_levels() implies #[trigger] spec_index(v, T::spec_levels(), m)
                                == spec_index(vpn.0, T::spec_levels(), m) by {
                                if m < last {
                                }
                            }
                        }
                    }
                }
                Ok(())
            },
        }
    }

    /// Clears the valid leaf entry of `vpn`. Neither the mapped frame nor
    /// intermediate tables are released, and the translation cache is left
    /// to the caller.
    pub fn unmap(&mut self, mem: &mut PhysMemory, vpn: VirtPageNum)
        requires
            old(mem).wf(),
            old(self).can_unmap(*old(mem), vpn.0),
        ensures
            *final(self) == *old(self),
            final(mem).wf(),
            final(mem).spec_base() == old(mem).spec_base(),
            final(mem).spec_npages() == old(mem).spec_npages(),
            final(self).tree_wf(*final(mem)),
            final(self).spec_lookup(*final(mem), vpn.0).is_none(),
            forall|v: usize| #[trigger]
                old(self).spec_lookup(*old(mem), v).is_some() && !spec_same_indices::<T>(v, vpn.0) ==> final(self).spec_lookup(
                    *final(mem),
                    v,
                ) == old(self).spec_lookup(*old(mem), v),
            forall|v: usize| #[trigger]
                final(self).spec_lookup(*final(mem), v).is_some() ==> final(self).spec_lookup(*final(mem), v) == old(
                    self,
                ).spec_lookup(*old(mem), v),
    {
        proof {
            T::lemma_encoding();
        }
        match self.find_pte(mem, vpn) {
            Some((f, i)) => {
                let ghost mem1 = *mem;
                let ghost root = self.root_ppn.0;
                let ghost owned = self.spec_owned();
                let ghost lv = self.level_of@;
                let ghost last = (T::spec_levels() - 1) as nat;
                proof {
                    lemma_reach_owned::<T>(mem1, root, owned, lv, vpn.0, last);
                }
                mem.write_entry(f, i, PageTableEntry::empty().bits);
                proof {
                    assert forall|g: usize, j: nat|
                        #![trigger mem.spec_entry(g, j)]
                        owned.contains(g) && lv[g] < last && j < 512 implies mem.spec_entry(g, j) == mem1.spec_entry(g, j) by {
                        assert(g != f.0);
                    }
                    lemma_reach_stable::<T>(mem1, *mem, root, owned, lv, vpn.0, last);
                    assert forall|g: usize, j: nat|
                        #![trigger mem.spec_entry(g, j)]
                        owned.contains(g) && lv[g] + 1 < T::spec_levels() && j < 512 implies mem.spec_entry(g, j)
                            == mem1.spec_entry(g, j) by {
                        assert(g != f.0);
                    }
                    lemma_tree_ok_kept::<T>(mem1, *mem, root, owned, lv);
                    assert forall|v: usize| #[trigger]
                        spec_translate::<T>(mem1, root, v).is_some() && !spec_same_indices::<T>(v, vpn.0) implies spec_translate::<T>(
                            *mem,
                            root,
                            v,
                        ) == spec_translate::<T>(mem1, root, v) by {
                        lemma_reach_stable::<T>(mem1, *mem, root, owned, lv, v, last);
                        let g = spec_reach::<T>(mem1, root, v, last).unwrap();
                        let j = spec_index(v, T::spec_levels(), last);
                        if g == f.0 && j == i {
                            lemma_same_reach::<T>(mem1, root, owned, lv, v, vpn.0, last);
                            assert forall|m: nat| m < T::spec_levels() implies #[trigger] spec_index(v, T::spec_levels(), m)
                                == spec_index(vpn.0, T::spec_levels(), m) by {
                                if m < last {
                                }
                            }
                        }
                        assert(g != f.0 || j != i);
                        assert(mem.spec_entry(g, j) == mem1.spec_entry(g, j));
                    }
                    assert forall|v: usize| #[trigger]
                        spec_translate::<T>(*mem, root, v).is_some() implies spec_translate::<T>(*mem, root, v)
                            == spec_translate::<T>(mem1, root, v) by {
                        lemma_reach_stable::<T>(mem1, *mem, root, owned, lv, v, last);
                        let g = spec_reach::<T>(mem1, root, v, last).unwrap();
                        let j = spec_index(v, T::spec_levels(), last);
                        if g != f.0 || j != i {
                            assert(mem.spec_entry(g, j) == mem1.spec_entry(g, j));
                        } else {
                            assert(mem.spec_entry(g, j) == 0);
                        }
                    }
                }
            },
            None => {},
        }
    }

    /// The physical address that `va` translates to.
    pub fn translate_va(&self, mem: &PhysMemory, va: VirtAddr) -> (r: Option<PhysAddr>)
        requires
            mem.wf(),
        ensures
            r == spec_translate_addr::<T>(*mem, self.spec_root(), va.0),
    {
        let vpn = T::va_to_vpn(va);
        match self.translate_vpn(mem, vpn) {
            Some(pte) => {
                let target = T::pte_to_ppn(&pte);
                if target.0 > crate::addr::MAX_PAGE_NUM {
                    return None;
                }
                let page_start = T::ppn_to_pa(target);
                let offset = va.page_offset();
                proof {
                    assert(page_start.0 + offset <= usize::MAX) by (nonlinear_arith)
                        requires
                            page_start.0 == target.0 * 4096,
                            target.0 <= usize::MAX / 4096,
                            offset < 4096,
                    ;
                }
                Some(PhysAddr(page_start.0 + offset))
            },
            None => None,
        }
    }

    /// Gives every frame the table owns back to `allocator`, the table's end
    /// of life. Mapped data frames belong to the caller and are not touched.
    pub fn destroy(self, mem: &PhysMemory, allocator: &mut StackFrameAllocator)
        requires
            self.wf(*mem, *old(allocator)),
        ensures
            final(allocator).wf(),
            final(allocator).spec_start() == old(allocator).spec_start(),
            final(allocator).spec_current() == old(allocator).spec_current(),
            final(allocator).spec_end() == old(allocator).spec_end(),
            final(allocator).spec_available() == old(allocator).spec_available() + self.spec_owned().len(),
            forall|i: int| 0 <= i < self.spec_owned().len() ==> !final(allocator).is_live(#[trigger] self.spec_owned()[i]),
            forall|p: usize| #[trigger] final(allocator).is_live(p) <==> (old(allocator).is_live(p) && !self.spec_owned().contains(p)),
    {
        let ghost owned = self.spec_owned();
        let mut k: usize = 0;
        while k < self.frames.len()
            invariant
                owned == self.spec_owned(),
                owned.no_duplicates(),
                k <= owned.len(),
                allocator.wf(),
                allocator.spec_start() == old(allocator).spec_start(),
                allocator.spec_current() == old(allocator).spec_current(),
                allocator.spec_end() == old(allocator).spec_end(),
                allocator.spec_available() == old(allocator).spec_available() + k,
                forall|i: int| k <= i < owned.len() ==> allocator.is_live(#[trigger] owned[i]),
                forall|i: int| 0 <= i < k ==> !allocator.is_live(#[trigger] owned[i]),
                forall|p: usize| #[trigger]
                    allocator.is_live(p) <==> (old(allocator).is_live(p) && forall|i: int| 0 <= i < k ==> #[trigger] owned[i] != p),
            decreases owned.len() - k,
        {
            let ppn = self.frames[k].ppn;
            assert(owned[k as int] == ppn.0);
            frame_dealloc(allocator, ppn);
            proof {
                assert forall|i: int| k + 1 <= i < owned.len() implies allocator.is_live(#[trigger] owned[i]) by {
                    assert(owned[i] != owned[k as int]);
                }
                assert forall|p: usize| #[trigger]
                    allocator.is_live(p) <==> (old(allocator).is_live(p) && forall|i: int| 0 <= i < k + 1 ==> #[trigger] owned[i] != p) by {
                    if p != ppn.0 {
                        assert((forall|i: int| 0 <= i < k + 1 ==> #[trigger] owned[i] != p) <==> (forall|i: int| 0 <= i < k ==> #[trigger] owned[i] != p));
                    }
                }
            }
            k = k + 1;
        }
        proof {
            assert forall|p: usize| #[trigger] allocator.is_live(p) <==> (old(allocator).is_live(p) && !owned.contains(p)) by {
                if owned.contains(p) {
                    let t = choose|t: int| 0 <= t < owned.len() && owned[t] == p;
                    assert(owned[t] == p);
                }
            }
        }
    }

    /// The slot holding the valid leaf entry for `vpn`: its frame and index.
    pub fn find_pte(&self, mem: &PhysMemory, vpn: VirtPageNum) -> (r: Option<(PhysPageNum, usize)>)
        requires
            mem.wf(),
        ensures
            r.is_some() == self.spec_lookup(*mem, vpn.0).is_some(),
            r.is_some() ==> {
                &&& spec_reach::<T>(*mem, self.spec_root(), vpn.0, (T::spec_levels() - 1) as nat) == Some(
                    r.unwrap().0.0,
                )
                &&& r.unwrap().1 == spec_index(vpn.0, T::spec_levels(), (T::spec_levels() - 1) as nat)
                &&& self.spec_lookup(*mem, vpn.0) == Some(mem.spec_entry(r.unwrap().0.0, r.unwrap().1 as nat))
            },
    {
        proof {
            T::lemma_encoding();
        }
        let levels = T::page_table_levels();
        let ghost last = (levels - 1) as nat;
        if !mem.contains_frame(self.root_ppn) {
            proof {
                lemma_reach_none::<T>(*mem, self.spec_root(), vpn.0, 0, last);
            }
            return None;
        }
        let idxs = vpn.indices(levels);
        let mut cur = self.root_ppn;
        let mut level: usize = 0;
        while level + 1 < levels
            invariant
                levels == T::spec_levels(),
                1 <= levels <= 4,
                last == levels - 1,
                level + 1 <= levels,
                mem.wf(),
                idxs@.len() == levels,
                forall|i: int| 0 <= i < levels ==> #[trigger] idxs@[i] == spec_index(vpn.0, levels as nat, i as nat),
                spec_reach::<T>(*mem, self.spec_root(), vpn.0, level as nat) == Some(cur.0),
                mem.has_frame(cur.0),
            decreases levels - level,
        {
            let pte = PageTableEntry { bits: mem.read_entry(cur, idxs[level]) };
            if !T::pte_is_valid(&pte) {
                proof {
                    lemma_reach_none::<T>(*mem, self.spec_root(), vpn.0, (level + 1) as nat, last);
                }
                return None;
            }
            let next = T::pte_to_ppn(&pte);
            if !mem.contains_frame(next) {
                proof {
                    lemma_reach_none::<T>(*mem, self.spec_root(), vpn.0, (level + 1) as nat, last);
                }
                return None;
            }
            cur = next;
            level = level + 1;
        }
        let i = idxs[levels - 1];
        let pte = PageTableEntry { bits: mem.read_entry(cur, i) };
        if T::pte_is_valid(&pte) {
            Some((cur, i))
        } else {
            None
        }
    }

    /// The valid leaf entry that maps `vpn`, copied out.
    pub fn translate_vpn(&self, mem: &PhysMemory, vpn: VirtPageNum) -> (r: Option<PageTableEntry>)
        requires
            mem.wf(),
        ensures
            r.is_some() == self.spec_lookup(*mem, vpn.0).is_some(),
            r.is_some() ==> r.unwrap().bits == self.spec_lookup(*mem, vpn.0).unwrap(),
    {
        match self.find_pte(mem, vpn) {
            Some((f, i)) => Some(PageTableEntry { bits: mem.read_entry(f, i) }),
            None => None,
        }
    }
}

} // verus!

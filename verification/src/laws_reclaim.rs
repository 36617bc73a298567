//! What the reaper keeps: the page tables stay a cache of the edges, step by
//! step, while mappings, memory objects and whole spaces go.

use vstd::prelude::*;

use crate::edge::{Dir, EdgeAttr};
use crate::frames::FrameAllocator;
use crate::id::{EdgeKind, NodeId, NodeKind};
use crate::reap::{ReapStep, Reclaim};
use crate::view::GraphView;

verus! {

/// What is held reads as it did: the same frames, and as many.
pub open spec fn reads_same(rc: Reclaim, m0: Seq<u8>, m1: Seq<u8>) -> bool {
    &&& crate::reaper::reclaimable(rc, m1)
    &&& forall|f: int| #[trigger]
        crate::reaper::gives_back(rc, m1, f) == crate::reaper::gives_back(rc, m0, f)
    &&& forall|f: int| #[trigger]
        crate::reaper::run_back(rc, m1, f) == crate::reaper::run_back(rc, m0, f)
    &&& crate::reaper::frames_back(rc, m1) == crate::reaper::frames_back(rc, m0)
}

// ------------------------------------------------------------------ the graph ---

/// A node that goes had no mapping, so no mapping goes with it.
proof fn freeing_is_same_paging(v: GraphView, id: NodeId)
    requires
        v.wf(),
        v.live(id),
        v.next_list(id) is None,
    ensures
        v.same_paging(v.freed(id)),
{
    let w = v.freed(id);
    assert forall|t: NodeId| #[trigger] w.is_space(t) implies v.is_space(t) && v.same_mappings(
        w,
        t,
    ) by {
        assert(v.nodes.contains_key(t));
        let out = v.list(t, Dir::Out, EdgeKind::Maps);
        assert(v.lists.contains_key((t, Dir::Out, EdgeKind::Maps)));
        assert(v.list_ok((t, Dir::Out, EdgeKind::Maps)));
        assert(w.list(t, Dir::Out, EdgeKind::Maps) == out);
        assert forall|k: int| 0 <= k < out.len() implies v.same_mapping(w, #[trigger] out[k]) by {
            assert(v.edges.contains_key(out[k]));
            assert(v.edge_ok(out[k]));
            let d = v.edges[out[k]].dst;
            if d == id {
                assert(v.list(id, Dir::In, EdgeKind::Maps).contains(out[k]));
                assert(v.list(id, Dir::In, EdgeKind::Maps).len() > 0);
            }
        }
    }
}

/// A step that removes no mapping of a user space leaves every user space
/// mapping what it did.
proof fn reaping_is_same_paging(v: GraphView)
    requires
        v.wf(),
        crate::reaper::unmap_next(v) is None,
    ensures
        v.same_paging(v.reaped().0),
{
    let id = v.dying_head;
    let w = v.reaped().0;
    if id.is_null() || !v.live(id) {
        assert(v.quiet(w));
        crate::laws_memory::quiet_is_same_paging(v, w);
    } else {
        let owns = v.list(id, Dir::Out, EdgeKind::Owns);
        if owns.len() > 0 {
            crate::laws_memory::deleting_is_quiet(v, v.edges[owns[0]].dst);
            crate::laws_memory::quiet_is_same_paging(v, w);
        } else if let Some((d, k)) = v.next_list(id) {
            if k != EdgeKind::Maps {
                crate::laws_memory::unlinking_first_is_quiet(v, id, d, k);
                crate::laws_memory::quiet_is_same_paging(v, w);
            } else {
                let e = v.list(id, d, k)[0];
                assert(v.lists.contains_key((id, d, k)));
                assert(v.list_ok((id, d, k)));
                assert(v.cut_next() == Some(e));
                crate::laws_paging::unmapped_mappings(v, e);
                assert forall|t: NodeId| #[trigger] w.is_space(t) implies v.is_space(t) && w.space(
                    t,
                ).pml4_phys == v.space(t).pml4_phys && w.space(t).is_kernel == v.space(t).is_kernel
                    && (w.user_space(t) ==> v.same_mappings(w, t)) by {
                    if t != v.edges[e].src {
                        assert(v.same_mappings(w, t));
                    }
                }
            }
        } else {
            freeing_is_same_paging(v, id);
        }
    }
}

/// The mapping that the next step removes, if it removes one.
pub proof fn next_mapping(v: GraphView)
    requires
        v.wf(),
    ensures
        crate::reaper::unmap_next(v) matches Some(e) ==> {
            &&& v.edges.contains_key(e)
            &&& v.edges[e].kind == EdgeKind::Maps
            &&& v.user_space(v.edges[e].src)
            &&& v.list(v.edges[e].src, Dir::Out, EdgeKind::Maps).contains(e)
            &&& v.reaped().0 == v.unlink(e)
            &&& v.reaped().1 is Progress
        },
{
    if let Some(e) = crate::reaper::unmap_next(v) {
        let id = v.dying_head;
        let (d, k) = v.next_list(id)->Some_0;
        assert(v.lists.contains_key((id, d, k)));
        assert(v.list_ok((id, d, k)));
        assert(v.list(id, d, k)[0] == e);
        assert(v.edges.contains_key(e));
        assert(v.edge_ok(e));
        assert(k == EdgeKind::Maps);
    }
}

// ----------------------------------------------------------------- the memory ---

/// Where one space's leaf entries change, no other space's tables do.
proof fn neighbour_untouched(
    m0: Seq<u8>,
    m1: Seq<u8>,
    a: int,
    b: int,
    way: spec_fn(Seq<int>) -> bool,
)
    requires
        crate::paging::leaves_changed(m0, m1, a, way),
        forall|q: Seq<int>| #[trigger] way(q) ==> crate::laws_paging::user_side(q),
        crate::tables::tree(m0, b),
        crate::laws_paging::private(m0, a, b),
    ensures
        crate::tables::tree(m1, b),
        forall|p: Seq<int>|
            crate::tables::path_ok(p) ==> #[trigger] crate::tables::table_at(m1, b, p)
                == crate::tables::table_at(m0, b, p),
{
    assert forall|p: Seq<int>, x: int|
        #![trigger crate::tables::is_table(m0, b, p), m1[x]]
        crate::tables::is_table(m0, b, p) && crate::tables::table_at(m0, b, p)->Some_0 <= x
            < crate::tables::table_at(m0, b, p)->Some_0 + 4096 implies m1[x] == m0[x] by {
        let t = crate::tables::table_at(m0, b, p)->Some_0;
        assert(t % 4096 == 0);
        assert(x / 4096 * 4096 == t);
        if crate::paging::touched(m0, a, way, t) {
            let q = choose|q: Seq<int>| #[trigger]
                crate::tables::is_table(m0, a, q) && (q.len() == 0 || way(q))
                    && crate::tables::table_at(m0, a, q) == Some(t);
            assert(crate::laws_paging::user_side(q));
            assert(crate::tables::has_table(m0, b, t));
        }
    }
    crate::spaces::elsewhere_kept(m0, m1, b);
}

/// Where the entries of a mapping are cleared, every table of every space
/// stays where it was.
proof fn clearing_keeps_trees(v: GraphView, m0: Seq<u8>, m1: Seq<u8>, e: u32, t: NodeId)
    requires
        v.wf(),
        v.memory_sound(m0),
        v.edges.contains_key(e),
        v.edges[e].kind == EdgeKind::Maps,
        v.user_space(v.edges[e].src),
        v.list(v.edges[e].src, Dir::Out, EdgeKind::Maps).contains(e),
        crate::reaper::cleared(v, m0, m1, e),
        v.is_space(t),
    ensures
        crate::tables::tree(m1, crate::vm::root_in(v, t)),
        forall|p: Seq<int>|
            crate::tables::path_ok(p) ==> #[trigger] crate::tables::table_at(
                m1,
                crate::vm::root_in(v, t),
                p,
            ) == crate::tables::table_at(m0, crate::vm::root_in(v, t), p),
{
    let s = v.edges[e].src;
    let a = v.maps(e);
    let out = v.list(s, Dir::Out, EdgeKind::Maps);
    assert(v.is_space(s));
    assert(out[out.index_of(e)] == e);
    assert(v.range_sound(out[out.index_of(e)]));
    crate::laws_paging::user_ways(a.vaddr, a.len_pages as int);
    if t != s {
        neighbour_untouched(
            m0,
            m1,
            crate::vm::root_in(v, s),
            crate::vm::root_in(v, t),
            crate::paging::toward_run(a.vaddr, a.len_pages as int),
        );
    }
}

/// The entries of a mapping are in no frame table.
proof fn clearing_keeps_frame_tables(v: GraphView, m0: Seq<u8>, m1: Seq<u8>, e: u32, m: NodeId)
    requires
        v.wf(),
        v.memory_sound(m0),
        v.edges.contains_key(e),
        v.user_space(v.edges[e].src),
        crate::reaper::cleared(v, m0, m1, e),
        v.is_object(m),
    ensures
        crate::laws_paging::table_kept(v.holding(m), m0, m1),
{
    let s = v.edges[e].src;
    let root = crate::vm::root_in(v, s);
    let way = crate::paging::toward_run(v.maps(e).vaddr, v.maps(e).len_pages as int);
    if let Reclaim::PagedMemory { table_phys, table_pages, pages } = v.holding(m) {
        assert forall|a: int|
            table_phys <= a < table_phys + 4096 * table_pages && a < m0.len() implies #[trigger]
            m1[a] == m0[a] by {
            assert(v.holds_frame(m0, m, a / 4096));
            assert(v.is_space(s));
            assert(!crate::tables::has_table(m0, root, 4096 * (a / 4096)));
            if crate::paging::touched(m0, root, way, a / 4096 * 4096) {
                let q = choose|q: Seq<int>| #[trigger]
                    crate::tables::is_table(m0, root, q) && (q.len() == 0 || way(q))
                        && crate::tables::table_at(m0, root, q) == Some(a / 4096 * 4096);
                assert(crate::tables::has_table(m0, root, 4096 * (a / 4096)));
            }
        }
    }
}

/// Where every path leads where it did, the same frames are user tables.
proof fn same_user_tables(m0: Seq<u8>, m1: Seq<u8>, root: int, f: int)
    requires
        forall|p: Seq<int>|
            crate::tables::path_ok(p) ==> #[trigger] crate::tables::table_at(m1, root, p)
                == crate::tables::table_at(m0, root, p),
    ensures
        crate::spaces::user_table(m1, root, f) == crate::spaces::user_table(m0, root, f),
{
    let none: Seq<int> = Seq::empty();
    if crate::spaces::hangs(m1, root, none, 256, f) {
        let q = choose|q: Seq<int>| #[trigger]
            crate::tables::is_table(m1, root, q) && crate::tables::below(q, none) && q[0] < 256
                && crate::tables::table_at(m1, root, q) == Some(4096 * f);
        assert(crate::tables::is_table(m0, root, q));
        assert(crate::spaces::hangs(m0, root, none, 256, f));
    }
    if crate::spaces::hangs(m0, root, none, 256, f) {
        let q = choose|q: Seq<int>| #[trigger]
            crate::tables::is_table(m0, root, q) && crate::tables::below(q, none) && q[0] < 256
                && crate::tables::table_at(m0, root, q) == Some(4096 * f);
        assert(crate::tables::table_at(m1, root, q) == Some(4096 * f));
        assert(crate::tables::is_table(m1, root, q));
        assert(crate::spaces::hangs(m1, root, none, 256, f));
    }
}

/// Sound memory is sound for a graph that maps and holds no more.
pub proof fn same_paging_keeps_memory(v: GraphView, w: GraphView, mem: Seq<u8>)
    requires
        v.memory_sound(mem),
        v.same_paging(w),
    ensures
        w.memory_sound(mem),
{
    assert forall|s: NodeId| #[trigger] w.is_space(s) implies crate::tables::tree(
        mem,
        crate::vm::root_in(w, s),
    ) && (w.user_space(s) ==> w.ranges_sound(s)) by {
        assert(v.is_space(s));
        if w.user_space(s) {
            crate::laws_paging::same_ranges_sound(v, w, s);
        }
    }
    assert forall|s: NodeId, t: NodeId| #[trigger]
        w.is_space(s) && #[trigger] w.is_space(t) && s != t implies crate::laws_paging::private(
        mem,
        crate::vm::root_in(w, s),
        crate::vm::root_in(w, t),
    ) by {
        assert(v.is_space(s) && v.is_space(t));
    }
    assert forall|m: NodeId, f: int, s: NodeId|
        w.is_object(m) && #[trigger] v.holds_frame(mem, m, f) && #[trigger] w.is_space(
            s,
        ) implies !crate::tables::has_table(mem, crate::vm::root_in(w, s), 4096 * f) by {
        assert(v.is_object(m) && v.is_space(s));
    }
    crate::laws_paging::objects_stay_apart(v, w, mem, mem);
}

/// Where the page tables are in order, the memory is sound.
pub proof fn paging_ok_is_sound(v: GraphView, mem: Seq<u8>, fa: FrameAllocator<'_>)
    requires
        v.paging_ok(mem, fa),
    ensures
        v.memory_sound(mem),
{
}

/// In sound memory the reaper finds the tables it has to clear.
pub proof fn next_is_clearable(v: GraphView, mem: Seq<u8>)
    requires
        v.wf(),
        v.memory_sound(mem),
    ensures
        crate::reaper::unmap_next(v) matches Some(e) ==> crate::reaper::clearable(v, mem, e),
{
    next_mapping(v);
    if let Some(e) = crate::reaper::unmap_next(v) {
        let s = v.edges[e].src;
        let out = v.list(s, Dir::Out, EdgeKind::Maps);
        assert(v.is_space(s));
        assert(out[out.index_of(e)] == e);
        assert(v.range_sound(out[out.index_of(e)]));
    }
}

/// A step of the reaper keeps memory sound.
#[verifier::rlimit(40)]
pub proof fn reaping_keeps_memory(v: GraphView, m0: Seq<u8>, m1: Seq<u8>)
    requires
        v.wf(),
        v.memory_sound(m0),
        crate::reaper::memory_after(v, m0, m1),
    ensures
        v.reaped().0.memory_sound(m1),
{
    next_mapping(v);
    if let Some(e) = crate::reaper::unmap_next(v) {
        let s = v.edges[e].src;
        let w = v.unlink(e);
        crate::laws_paging::unmapped_mappings(v, e);
        assert(v.is_space(s));
        crate::laws_paging::fewer_ranges_sound(v, e);
        assert forall|t: NodeId| #[trigger] w.is_space(t) implies crate::tables::tree(
            m1,
            crate::vm::root_in(w, t),
        ) && (w.user_space(t) ==> w.ranges_sound(t)) by {
            assert(v.is_space(t));
            clearing_keeps_trees(v, m0, m1, e, t);
            if t != s && w.user_space(t) {
                crate::laws_paging::same_ranges_sound(v, w, t);
            }
        }
        assert forall|t: NodeId, u: NodeId| #[trigger]
            w.is_space(t) && #[trigger] w.is_space(u) && t != u implies crate::laws_paging::private(
            m1,
            crate::vm::root_in(w, t),
            crate::vm::root_in(w, u),
        ) by {
            assert(v.is_space(t) && v.is_space(u));
            clearing_keeps_trees(v, m0, m1, e, t);
            clearing_keeps_trees(v, m0, m1, e, u);
            crate::laws_paging::strangers_kept(
                m0,
                m1,
                crate::vm::root_in(v, t),
                crate::vm::root_in(v, u),
            );
        }
        assert forall|m: NodeId| #[trigger] w.is_object(m) implies crate::laws_paging::table_kept(
            v.holding(m),
            m0,
            m1,
        ) by {
            clearing_keeps_frame_tables(v, m0, m1, e, m);
        }
        assert forall|m: NodeId, f: int, t: NodeId|
            w.is_object(m) && #[trigger] v.holds_frame(m0, m, f) && #[trigger] w.is_space(
                t,
            ) implies !crate::tables::has_table(m1, crate::vm::root_in(w, t), 4096 * f) by {
            assert(v.is_object(m) && v.is_space(t));
            clearing_keeps_trees(v, m0, m1, e, t);
            crate::laws_memory::same_tables(m0, m1, crate::vm::root_in(v, t), 4096 * f);
        }
        crate::laws_paging::objects_stay_apart(v, w, m0, m1);
    } else {
        reaping_is_same_paging(v);
        same_paging_keeps_memory(v, v.reaped().0, m0);
    }
}

/// What a node holds that is left after a step of the reaper reads as it did.
pub proof fn still_reads_same(v: GraphView, m: Seq<u8>, m0: Seq<u8>, m1: Seq<u8>)
    requires
        v.wf(),
        v.memory_sound(m0),
        crate::reaper::memory_after(v, m0, m1),
        forall|id: NodeId| #[trigger]
            v.nodes.contains_key(id) ==> reads_same(
                crate::reap::reclaim_of(v.nodes[id].body),
                m,
                m0,
            ),
    ensures
        forall|id: NodeId| #[trigger]
            v.reaped().0.nodes.contains_key(id) ==> reads_same(
                crate::reap::reclaim_of(v.reaped().0.nodes[id].body),
                m,
                m1,
            ),
{
    next_mapping(v);
    crate::reaper::reaping_keeps_holdings(v);
    let w = v.reaped().0;
    assert forall|id: NodeId| #[trigger] w.nodes.contains_key(id) implies reads_same(
        crate::reap::reclaim_of(w.nodes[id].body),
        m,
        m1,
    ) by {
        assert(v.nodes.contains_key(id));
        assert(v.node_ok(id));
        let rc = crate::reap::reclaim_of(v.nodes[id].body);
        assert(reads_same(rc, m, m0));
        if let Some(e) = crate::reaper::unmap_next(v) {
            if v.is_object(id) {
                clearing_keeps_frame_tables(v, m0, m1, e, id);
                crate::laws_paging::holding_kept(rc, m0, m1);
            } else if v.is_space(id) {
                clearing_keeps_trees(v, m0, m1, e, id);
                let root = crate::vm::root_in(v, id);
                assert forall|f: int| #[trigger] crate::spaces::user_table(m1, root, f)
                    == crate::spaces::user_table(m0, root, f) by {
                    same_user_tables(m0, m1, root, f);
                }
            }
        }
        assert forall|f: int| #[trigger] crate::reaper::gives_back(rc, m1, f)
            == crate::reaper::gives_back(rc, m, f) by {
            assert(crate::reaper::gives_back(rc, m0, f) == crate::reaper::gives_back(rc, m, f));
        }
        assert forall|f: int| #[trigger] crate::reaper::run_back(rc, m1, f)
            == crate::reaper::run_back(rc, m, f) by {
            assert(crate::reaper::run_back(rc, m0, f) == crate::reaper::run_back(rc, m, f));
        }
    }
}

// ---------------------------------------------------------------------- laws ---

/// What a node that goes gives back, nobody who stays uses.
proof fn given_back_is_loose(v: GraphView, mem: Seq<u8>, id: NodeId, f: int)
    requires
        v.wf(),
        v.memory_sound(mem),
        v.live(id),
        v.next_list(id) is None,
        crate::reaper::gives_back(v.holding(id), mem, f),
    ensures
        v.freed(id).no_table(mem, f),
        v.freed(id).unheld(mem, f),
{
    let w = v.freed(id);
    freeing_is_same_paging(v, id);
    assert(v.nodes.contains_key(id));
    assert(v.node_ok(id));
    if v.is_object(id) {
        assert(v.holds_frame(mem, id, f));
        assert forall|s: NodeId| #[trigger] w.is_space(s) implies !crate::tables::has_table(
            mem,
            crate::vm::root_in(w, s),
            4096 * f,
        ) by {
            assert(v.is_space(s));
        }
        assert forall|m: NodeId| #[trigger] w.is_object(m) implies !w.holds_frame(mem, m, f) by {
            assert(v.is_object(m));
            assert(!v.holds_frame(mem, m, f));
        }
    } else {
        assert(v.is_space(id));
        let root = crate::vm::root_in(v, id);
        crate::tables::root_is_table(mem, root);
        let none: Seq<int> = Seq::empty();
        let q = if root == 4096 * f {
            none
        } else {
            choose|q: Seq<int>| #[trigger]
                crate::tables::is_table(mem, root, q) && crate::tables::below(q, none) && q[0]
                    < 256 && crate::tables::table_at(mem, root, q) == Some(4096 * f)
        };
        assert(crate::tables::is_table(mem, root, q));
        assert(crate::laws_paging::user_side(q));
        assert(crate::tables::table_at(mem, root, q) == Some(4096 * f));
        assert(crate::tables::has_table(mem, root, 4096 * f));
        assert forall|s: NodeId| #[trigger] w.is_space(s) implies !crate::tables::has_table(
            mem,
            crate::vm::root_in(w, s),
            4096 * f,
        ) by {
            assert(v.is_space(s) && s != id);
            assert(crate::laws_paging::private(mem, root, crate::vm::root_in(v, s)));
        }
        assert forall|m: NodeId| #[trigger] w.is_object(m) implies !w.holds_frame(mem, m, f) by {
            assert(v.is_object(m));
            if v.holds_frame(mem, m, f) {
                assert(!crate::tables::has_table(mem, root, 4096 * f));
            }
        }
    }
}

/// Reaping keeps the page tables a cache of the edges: where a mapping goes
/// its entries go with it, and what goes back to the pool no space can reach.
pub proof fn reaping_keeps_tables(
    v: GraphView,
    m0: Seq<u8>,
    f0: FrameAllocator<'_>,
    m1: Seq<u8>,
    f1: FrameAllocator<'_>,
)
    requires
        v.wf(),
        v.paging_ok(m0, f0),
        crate::reaper::memory_after(v, m0, m1),
        crate::reaper::frames_after(Some(f0), Some(f1), m0, v.reaped().1),
    ensures
        v.reaped().0.paging_ok(m1, f1),
{
    next_mapping(v);
    paging_ok_is_sound(v, m0, f0);
    let w = v.reaped().0;
    if let Some(e) = crate::reaper::unmap_next(v) {
        crate::laws_paging::unmapping_keeps_tables(v, m0, f0, m1, e);
    } else {
        reaping_is_same_paging(v);
        crate::laws_memory::same_paging_keeps_tables(v, w, m0, f0);
        if let ReapStep::Freed { id, reclaim } = v.reaped().1 {
            assert forall|f: int| #[trigger] f1.free(f) implies f0.free(f) || (w.no_table(m0, f)
                && w.unheld(m0, f)) by {
                if !f0.free(f) {
                    given_back_is_loose(v, m0, id, f);
                }
            }
            crate::laws_memory::writing_elsewhere_keeps_tables(w, m0, f0, m0, f1);
        }
    }
}

} // verus!

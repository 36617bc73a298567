//! The central property: after any operation, every invariant still holds.

use vstd::prelude::*;

use crate::body::{AddressSpace, Body, MemoryObject, Process, Thread, ThreadState};
use crate::edge::{Dir, EdgeAttr};
use crate::id::{EdgeKind, NodeId, NodeKind};
use crate::limits::{HANDLE_SLOTS, MAX_EDGES, MAX_MAPPINGS_PER_SPACE};
use crate::slab::without;
use crate::view::{GraphView, ListKey};

verus! {

impl GraphView {
    /// The invariants, with one body left out of account.
    pub open spec fn inv_but(self, x: NodeId) -> bool {
        &&& self.all_owned()
        &&& self.bodies_but(x)
        &&& self.roots_ok()
        &&& exists|s: Seq<NodeId>| self.reaper_list(s)
    }
}

/// Left out of account and then found to fit: nothing is missing.
pub proof fn inv_restored(v: GraphView, x: NodeId)
    requires
        v.inv_but(x),
        v.live(x) ==> v.body_ok(x),
    ensures
        v.inv(),
{
    assert forall|id: NodeId| #[trigger] v.nodes.contains_key(id) implies v.body_ok(id) by {}
}

// ------------------------------------------------------------ well-formedness ---

/// Taking an edge out of a handle table stays inside it.
pub proof fn table_stays_bounded(p: Process, slot: u32, e: u32)
    ensures
        p.bounded() ==> p.without_handle(slot, e).bounded(),
        slot < HANDLE_SLOTS ==> p.with_handle(slot as int, e).handles@ == p.handles@.update(
            slot as int,
            e,
        ),
        slot < HANDLE_SLOTS && p.handles@[slot as int] == e ==> p.without_handle(slot, e).handles@
            == p.handles@.update(slot as int, 0),
{
    if slot < HANDLE_SLOTS {
        crate::view::array_of_exists::<HANDLE_SLOTS>(p.handles@.update(slot as int, e));
        crate::view::array_of_exists::<HANDLE_SLOTS>(p.handles@.update(slot as int, 0));
    }
}

/// What the range index holds once an edge is taken out of it.
proof fn without_range_facts(s: AddressSpace, e: u32)
    requires
        s.bounded(),
    ensures
        s.without_range(e).bounded(),
        s.indexed().contains(e) ==> ({
            let k = crate::view::first_at(s.indexed(), e);
            let t = s.without_range(e);
            &&& 0 <= k < s.mapping_count
            &&& s.ranges@[k] == e
            &&& t.mapping_count == s.mapping_count - 1
            &&& t.pml4_phys == s.pml4_phys
            &&& forall|j: int|
                0 <= j < t.mapping_count ==> #[trigger] t.ranges@[j] == s.ranges@[if j < k {
                    j
                } else {
                    j + 1
                }]
        }),
        s.without_range(e).pml4_phys == s.pml4_phys,
{
    if s.indexed().contains(e) {
        let idx = s.indexed();
        first_exists(idx, e);
        let k = crate::view::first_at(idx, e);
        assert(crate::view::is_first(idx, e, k));
        let r = s.ranges@.remove(k).insert(s.mapping_count - 1, 0);
        crate::view::array_of_exists::<MAX_MAPPINGS_PER_SPACE>(r);
        let t = s.without_range(e);
        assert(t.ranges@ == r);
        assert forall|j: int| 0 <= j < t.mapping_count implies #[trigger] t.ranges@[j]
            == s.ranges@[if j < k {
            j
        } else {
            j + 1
        }] by {}
        assert forall|j: int| 0 <= j < MAX_MAPPINGS_PER_SPACE implies #[trigger] t.ranges@[j]
            < MAX_EDGES by {
            if j < k {
                assert(t.ranges@[j] == s.ranges@[j]);
            } else if j < s.mapping_count - 1 {
                assert(t.ranges@[j] == s.ranges@[j + 1]);
            } else if j > s.mapping_count - 1 {
                assert(t.ranges@[j] == s.ranges@[j]);
            }
        }
    }
}

/// An element of a sequence has a first position.
proof fn first_exists(s: Seq<u32>, e: u32)
    requires
        s.contains(e),
    ensures
        exists|i: int| crate::view::is_first(s, e, i),
{
    let i = s.index_of(e);
    first_below(s, e, i);
}

proof fn first_below(s: Seq<u32>, e: u32, i: int)
    requires
        0 <= i < s.len(),
        s[i] == e,
    ensures
        exists|k: int| crate::view::is_first(s, e, k),
    decreases i,
{
    if exists|j: int| 0 <= j < i && s[j] == e {
        let j = choose|j: int| 0 <= j < i && s[j] == e;
        first_below(s, e, j);
    } else {
        assert(crate::view::is_first(s, e, i));
    }
}

/// The bookkeeping of a removal keeps the view well formed.
pub proof fn detach_wf(v: GraphView, e: u32)
    requires
        v.wf(),
        v.edges.contains_key(e),
    ensures
        v.detach(e).wf(),
        v.detach(e).edges == v.edges,
        v.detach(e).lists == v.lists,
        v.detach(e).nodes.dom() == v.nodes.dom(),
        v.detach(e).root_id == v.root_id,
        v.detach(e).dying_head == v.dying_head,
{
    let x = v.edges[e];
    assert(v.edge_ok(e));
    assert(v.node_ok(x.src) && v.node_ok(x.dst));
    assert(v.detach(e).nodes.dom() =~= v.nodes.dom());
    match x.kind {
        EdgeKind::Holds => {
            table_stays_bounded(v.process(x.src), v.holds(e).slot, e);
            crate::graph::view_body_wf(
                v,
                x.src,
                Body::Process(v.process(x.src).without_handle(v.holds(e).slot, e)),
            );
        },
        EdgeKind::Maps => {
            without_range_facts(v.space(x.src), e);
            let b = Body::MemoryObject(v.memobj(x.dst).unmapped_once());
            crate::graph::view_body_wf(v, x.dst, b);
            crate::graph::view_body_wf(
                v.with_body(x.dst, b),
                x.src,
                Body::AddressSpace(v.space(x.src).without_range(e)),
            );
        },
        EdgeKind::Waiting => {
            crate::graph::view_body_wf(
                v,
                x.src,
                Body::Thread(v.thread(x.src).wait_torn_down()),
            );
        },
        EdgeKind::InSpace => {
            crate::graph::view_body_wf(
                v,
                x.src,
                Body::Thread(Thread { cr3: 0, ..v.thread(x.src) }),
            );
        },
        EdgeKind::Owns => {
            owner_wf(v, x.dst, NodeId(0));
        },
        _ => {},
    }
}

/// An owner is no part of well-formedness.
pub proof fn owner_wf(v: GraphView, id: NodeId, owner: NodeId)
    requires
        v.wf(),
        v.live(id),
    ensures
        v.with_owner(id, owner).wf(),
{
    let w = v.with_owner(id, owner);
    assert forall|e: u32| #[trigger] w.edges.contains_key(e) implies w.edge_ok(e) by {
        assert(v.edges.contains_key(e));
        assert(v.edge_ok(e));
    }
    assert forall|key: ListKey| #[trigger] w.lists.contains_key(key) implies w.list_ok(key) by {
        assert(v.lists.contains_key(key));
        assert(v.list_ok(key));
    }
    assert forall|key: ListKey| #[trigger] w.lists.contains_key(key) <==> w.nodes.contains_key(
        key.0,
    ) by {
        assert(v.lists.contains_key(key) <==> v.nodes.contains_key(key.0));
    }
    assert forall|n: NodeId| #[trigger] w.nodes.contains_key(n) implies w.node_ok(n) by {
        assert(v.nodes.contains_key(n));
        assert(v.node_ok(n));
        assert(v.node_ok(id));
    }
}

/// Removing an edge keeps the view well formed.
pub proof fn unlink_wf(v: GraphView, e: u32)
    requires
        v.wf(),
        v.edges.contains_key(e),
    ensures
        v.unlink(e).wf(),
{
    detach_wf(v, e);
    crate::unlink::cut_wf(v.detach(e), e);
}

// -------------------------------------------------------------- removal ---

/// Removing a scheduler or address-space edge of a thread bears on that
/// thread alone.
pub proof fn thread_edge_goes(v: GraphView, e: u32, t: NodeId)
    requires
        v.wf(),
        v.edges.contains_key(e),
        v.edges[e].kind == EdgeKind::Ready && v.edges[e].dst == t || (v.edges[e].kind
            == EdgeKind::Waiting || v.edges[e].kind == EdgeKind::InSpace) && v.edges[e].src == t,
        v.inv_but(t),
    ensures
        v.unlink(e).wf(),
        v.unlink(e).inv_but(t),
{
    let x = v.edges[e];
    let d = v.detach(e);
    let w = v.unlink(e);
    unlink_wf(v, e);
    detach_wf(v, e);
    assert(v.edge_ok(e));
    assert(v.node_ok(x.src) && v.node_ok(x.dst));
    if x.kind != EdgeKind::Ready {
        let b = d.nodes[t].body;
        assert(d == v.with_body(t, b));
        crate::invariants::with_body_keeps_tree(v, t, b);
        crate::invariants::with_body_keeps_roots(v, t, b);
        assert forall|id: NodeId| #[trigger]
            d.nodes.contains_key(id) && id != t implies d.body_ok(id) by {
            assert(v.nodes.contains_key(id));
            crate::invariants::with_body_keeps_bodies(v, t, b, id);
        }
    }
    crate::invariants::cut_keeps_tree(d, e);
    crate::invariants::nodes_keep_roots(d, w);
    assert forall|id: NodeId| #[trigger]
        w.nodes.contains_key(id) && id != t implies w.body_ok(id) by {
        assert(d.nodes.contains_key(id));
        crate::invariants::cut_keeps_bodies(d, e, id);
    }
}

/// A list of one loses its only member.
pub proof fn only_member_goes(v: GraphView, id: NodeId, dir: Dir, kind: EdgeKind, e: u32)
    requires
        v.wf(),
        v.live(id),
        v.edges.contains_key(e),
        v.list(id, dir, kind).contains(e),
        v.edges[e].kind == kind,
        v.edges[e].endpoint(dir) == id,
    ensures
        v.unlink(e).list(id, dir, kind).len() == v.list(id, dir, kind).len() - 1,
        v.unlink(e).list(id, dir, kind) == without(v.list(id, dir, kind), e),
{
    let key: ListKey = (id, dir, kind);
    assert(v.lists.contains_key(key));
    assert(v.list_ok(key));
    crate::slab::without_facts(v.lists[key], e);
    detach_wf(v, e);
}

/// The space a thread runs in is found through edges that a removal elsewhere
/// does not disturb.
pub proof fn root_table_stays(v: GraphView, w: GraphView, t: NodeId)
    requires
        v.wf(),
        v.live(t),
        t.kind() == Some(NodeKind::Thread),
        w.list(t, Dir::Out, EdgeKind::InSpace) == v.list(t, Dir::Out, EdgeKind::InSpace),
        forall|e: u32| #[trigger]
            v.edges.contains_key(e) && v.edges[e].kind == EdgeKind::InSpace ==> w.edges[e].dst
                == v.edges[e].dst,
        forall|s: NodeId| #[trigger]
            v.nodes.contains_key(s) && s.kind() == Some(NodeKind::AddressSpace) ==> w.space(
                s,
            ).pml4_phys == v.space(s).pml4_phys,
    ensures
        w.root_table(t) == v.root_table(t),
{
    let key: ListKey = (t, Dir::Out, EdgeKind::InSpace);
    let s = v.lists[key];
    assert(v.lists.contains_key(key));
    assert(v.list_ok(key));
    if s.len() > 0 {
        assert(v.edges.contains_key(s[0]));
        assert(v.edge_ok(s[0]));
    }
}

/// Ending a wait by removing its edge keeps every invariant: the thread is no
/// longer blocked, and is told why.
pub proof fn removing_a_wait_keeps_invariants(v: GraphView, e: u32)
    requires
        v.wf(),
        v.inv(),
        v.edges.contains_key(e),
        v.edges[e].kind == EdgeKind::Waiting,
    ensures
        v.unlink(e).inv(),
        v.unlink(e).thread(v.edges[e].src).state == ThreadState::Inert,
        v.unlink(e).thread(v.edges[e].src).wait_aborted == 1,
        v.unlink(e).list(v.edges[e].src, Dir::Out, EdgeKind::Waiting).len() == 0,
{
    let t = v.edges[e].src;
    let w = v.unlink(e);
    assert(v.edge_ok(e));
    assert(v.node_ok(t) && v.body_ok(t));
    thread_edge_goes(v, e, t);
    only_member_goes(v, t, Dir::Out, EdgeKind::Waiting, e);
    root_table_stays(v, w, t);
    inv_restored(w, t);
}

/// Unbinding a thread from its address space keeps every invariant.
pub proof fn unbinding_a_space_keeps_invariants(v: GraphView, e: u32)
    requires
        v.wf(),
        v.inv(),
        v.edges.contains_key(e),
        v.edges[e].kind == EdgeKind::InSpace,
    ensures
        v.unlink(e).inv(),
        v.unlink(e).list(v.edges[e].src, Dir::Out, EdgeKind::InSpace).len() == 0,
{
    let t = v.edges[e].src;
    let w = v.unlink(e);
    assert(v.edge_ok(e));
    assert(v.node_ok(t) && v.body_ok(t));
    thread_edge_goes(v, e, t);
    only_member_goes(v, t, Dir::Out, EdgeKind::InSpace, e);
    inv_restored(w, t);
}

/// Taking a name away keeps every invariant.
pub proof fn removing_a_name_keeps_invariants(v: GraphView, e: u32)
    requires
        v.wf(),
        v.inv(),
        v.edges.contains_key(e),
        v.edges[e].kind == EdgeKind::Named,
    ensures
        v.unlink(e).inv(),
{
    let w = v.unlink(e);
    assert(v.edge_ok(e));
    assert(v.detach(e) == v);
    crate::invariants::cut_keeps_tree(v, e);
    crate::invariants::nodes_keep_roots(v, w);
    assert forall|id: NodeId| #[trigger] w.nodes.contains_key(id) implies w.body_ok(id) by {
        assert(v.nodes.contains_key(id));
        crate::invariants::cut_keeps_bodies(v, e, id);
    }
}

/// Revoking a capability keeps every invariant, and empties its slot.
pub proof fn revoking_keeps_invariants(v: GraphView, e: u32)
    requires
        v.wf(),
        v.inv(),
        v.edges.contains_key(e),
        v.edges[e].kind == EdgeKind::Holds,
    ensures
        v.unlink(e).inv(),
        v.unlink(e).process(v.edges[e].src).handles@ == v.process(v.edges[e].src).handles@.update(
            v.holds(e).slot as int,
            0,
        ),
        1 <= v.holds(e).slot < HANDLE_SLOTS,
        v.process(v.edges[e].src).handles@[v.holds(e).slot as int] == e,
{
    let p = v.edges[e].src;
    let w = v.unlink(e);
    let d = v.detach(e);
    let slot = v.holds(e).slot;
    assert(v.edge_ok(e));
    assert(v.node_ok(p) && v.body_ok(p));
    let key: ListKey = (p, Dir::Out, EdgeKind::Holds);
    assert(v.lists.contains_key(key));
    assert(v.list_ok(key));
    let out = v.lists[key];
    let je = out.index_of(e);
    assert(out[je] == e);
    detach_wf(v, e);
    table_stays_bounded(v.process(p), slot, e);
    let b = Body::Process(v.process(p).without_handle(slot, e));
    assert(d == v.with_body(p, b));
    crate::invariants::with_body_keeps_tree(v, p, b);
    crate::invariants::with_body_keeps_roots(v, p, b);
    assert forall|id: NodeId| #[trigger]
        d.nodes.contains_key(id) && id != p implies d.body_ok(id) by {
        assert(v.nodes.contains_key(id));
        crate::invariants::with_body_keeps_bodies(v, p, b, id);
    }
    crate::invariants::cut_keeps_tree(d, e);
    crate::invariants::nodes_keep_roots(d, w);
    assert forall|id: NodeId| #[trigger]
        w.nodes.contains_key(id) && id != p implies w.body_ok(id) by {
        assert(d.nodes.contains_key(id));
        crate::invariants::cut_keeps_bodies(d, e, id);
    }
    // The table of the process itself.
    only_member_goes(v, p, Dir::Out, EdgeKind::Holds, e);
    crate::slab::without_facts(out, e);
    let h0 = v.process(p).handles@;
    let h = w.process(p).handles@;
    let rest = w.list(p, Dir::Out, EdgeKind::Holds);
    assert(h == h0.update(slot as int, 0));
    assert forall|i: int| 1 <= i < HANDLE_SLOTS && h[i] != 0 implies w.edges.contains_key(
        #[trigger] h[i],
    ) && w.edges[h[i]].kind == EdgeKind::Holds && w.edges[h[i]].src == p && w.holds(h[i]).slot
        == i by {
        assert(h[i] == h0[i]);
        assert(v.edges.contains_key(h0[i]));
        assert(h0[i] != e);
    }
    assert forall|j: int| 0 <= j < rest.len() implies 1 <= w.holds(#[trigger] rest[j]).slot
        < HANDLE_SLOTS && h[w.holds(rest[j]).slot as int] == rest[j] by {
        assert(rest.contains(rest[j]));
        assert(out.contains(rest[j]) && rest[j] != e);
        let k = out.index_of(rest[j]);
        assert(out[k] == rest[j]);
        assert(v.edges.contains_key(out[k]));
    }
    assert(w.handles_ok(p));
    inv_restored(w, p);
}

/// The range index of a consistent space lists each mapping once.
pub proof fn index_lists_each_once(v: GraphView, s: NodeId)
    requires
        v.wf(),
        v.live(s),
        v.index_ok(s),
    ensures
        v.space(s).indexed().no_duplicates(),
{
    let idx = v.space(s).indexed();
    let key: ListKey = (s, Dir::Out, EdgeKind::Maps);
    let out = v.lists[key];
    assert(v.lists.contains_key(key));
    assert(v.list_ok(key));
    assert forall|e: u32| out.to_set().contains(e) implies idx.to_set().contains(e) by {
        let i = choose|i: int| 0 <= i < out.len() && out[i] == e;
        assert(idx.contains(out[i]));
    }
    idx.lemma_cardinality_of_set();
    out.unique_seq_to_set();
    vstd::set_lib::lemma_len_subset(out.to_set(), idx.to_set());
    idx.lemma_no_dup_set_cardinality();
}

/// Unmapping keeps every invariant: both counts, and the order of the index.
pub proof fn unmapping_keeps_invariants(v: GraphView, e: u32)
    requires
        v.wf(),
        v.inv(),
        v.edges.contains_key(e),
        v.edges[e].kind == EdgeKind::Maps,
    ensures
        v.unlink(e).inv(),
{
    let s = v.edges[e].src;
    let m = v.edges[e].dst;
    let d = v.detach(e);
    let w = v.unlink(e);
    assert(v.edge_ok(e));
    assert(v.node_ok(s) && v.body_ok(s) && v.node_ok(m) && v.body_ok(m));
    detach_wf(v, e);
    let b0 = v.space(s);
    without_range_facts(b0, e);
    let bm = Body::MemoryObject(v.memobj(m).unmapped_once());
    let bs = Body::AddressSpace(b0.without_range(e));
    let d1 = v.with_body(m, bm);
    crate::graph::view_body_wf(v, m, bm);
    crate::invariants::with_body_keeps_tree(v, m, bm);
    crate::invariants::with_body_keeps_roots(v, m, bm);
    crate::invariants::with_body_keeps_tree(d1, s, bs);
    crate::invariants::with_body_keeps_roots(d1, s, bs);
    assert forall|id: NodeId| #[trigger]
        d.nodes.contains_key(id) && id != m && id != s implies d.body_ok(id) by {
        assert(v.nodes.contains_key(id));
        crate::invariants::with_body_keeps_bodies(v, m, bm, id);
        crate::invariants::with_body_keeps_bodies(d1, s, bs, id);
    }
    crate::invariants::cut_keeps_tree(d, e);
    crate::invariants::nodes_keep_roots(d, w);
    assert forall|id: NodeId| #[trigger]
        w.nodes.contains_key(id) && id != m && id != s implies w.body_ok(id) by {
        assert(d.nodes.contains_key(id));
        crate::invariants::cut_keeps_bodies(d, e, id);
    }
    only_member_goes(v, m, Dir::In, EdgeKind::Maps, e);
    assert(w.map_count_ok(m));
    // The index.
    only_member_goes(v, s, Dir::Out, EdgeKind::Maps, e);
    index_lists_each_once(v, s);
    let key: ListKey = (s, Dir::Out, EdgeKind::Maps);
    let out = v.lists[key];
    assert(v.lists.contains_key(key));
    assert(v.list_ok(key));
    crate::slab::without_facts(out, e);
    let rest = w.lists[key];
    let idx = b0.indexed();
    let je = out.index_of(e);
    assert(out[je] == e);
    assert(idx.contains(out[je]));
    let k = crate::view::first_at(idx, e);
    let b = w.space(s);
    assert(b == b0.without_range(e));
    assert forall|j: int| 0 <= j < b.mapping_count implies b.ranges@[j] != e && ({
        let q = if j < k {
            j
        } else {
            j + 1
        };
        #[trigger] b.ranges@[j] == b0.ranges@[q]
    }) by {
        let q = if j < k {
            j
        } else {
            j + 1
        };
        assert(b.ranges@[j] == b0.ranges@[q]);
        assert(idx[q] == b0.ranges@[q] && idx[k] == e);
        assert(idx[q] != idx[k]);
    }
    assert forall|i: int| 0 <= i < b.mapping_count implies w.edges.contains_key(
        #[trigger] b.ranges@[i],
    ) && w.edges[b.ranges@[i]].kind == EdgeKind::Maps && w.edges[b.ranges@[i]].src == s by {
        let q = if i < k {
            i
        } else {
            i + 1
        };
        assert(b.ranges@[i] == b0.ranges@[q]);
        assert(v.edges.contains_key(b0.ranges@[q]));
    }
    assert forall|i: int, j: int| 0 <= i < j < b.mapping_count implies w.maps(
        #[trigger] b.ranges@[i],
    ).end_at() <= w.maps(#[trigger] b.ranges@[j]).vaddr by {
        let qi = if i < k {
            i
        } else {
            i + 1
        };
        let qj = if j < k {
            j
        } else {
            j + 1
        };
        assert(b.ranges@[i] == b0.ranges@[qi] && b.ranges@[j] == b0.ranges@[qj]);
        assert(v.maps(b0.ranges@[qi]).end_at() <= v.maps(b0.ranges@[qj]).vaddr);
    }
    assert forall|i: int| 0 <= i < rest.len() implies b.indexed().contains(#[trigger] rest[i]) by {
        assert(rest.contains(rest[i]));
        assert(out.contains(rest[i]) && rest[i] != e);
        let o = out.index_of(rest[i]);
        assert(out[o] == rest[i]);
        assert(idx.contains(out[o]));
        let q = idx.index_of(rest[i]);
        assert(idx[q] == rest[i] && q != k);
        let j = if q < k {
            q
        } else {
            q - 1
        };
        assert(b.indexed()[j] == rest[i]);
    }
    assert(w.index_ok(s));
    assert forall|id: NodeId| #[trigger] w.nodes.contains_key(id) implies w.body_ok(id) by {}
}

} // verus!

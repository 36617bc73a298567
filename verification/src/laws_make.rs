//! Making nodes and relationships keeps every invariant.

use vstd::prelude::*;

use crate::body::{AddressSpace, Body, MemoryObject, Process, Rights, Root, Thread};
use crate::edge::{Dir, EdgeAttr, HoldsAttr, MapsAttr};
use crate::id::{EdgeId, EdgeKind, NodeId, NodeKind};
use crate::limits::{HANDLE_SLOTS, MAX_EDGES, MAX_MAPPINGS_PER_SPACE};
use crate::view::{GraphView, ListKey};

verus! {

/// A graph in which nothing has ever been satisfies every invariant.
pub proof fn empty_graph_satisfies_invariants()
    ensures
        crate::graph::Graph::nothing().wf(),
        crate::graph::Graph::nothing().inv(),
{
    let v = crate::graph::Graph::nothing();
    crate::id::node_id_parts(NodeId(0));
    assert(v.reaper_list(Seq::empty()));
}

/// A new node with no edges bears on no other node.
proof fn with_node_keeps(v: GraphView, id: NodeId, body: Body)
    requires
        v.wf(),
        v.inv(),
        !v.live(id),
        id.kind() == Some(body.kind()),
        id.generation() % 2 == 1,
        body.bounded(),
        body.fresh(),
    ensures
        ({
            let w = v.with_node(id, body);
            &&& w.wf()
            &&& w.all_bodies()
            &&& w.roots_ok()
            &&& exists|s: Seq<NodeId>| w.reaper_list(s)
            &&& forall|n: NodeId| #[trigger] v.nodes.contains_key(n) ==> w.owned_ok(n)
            &&& !w.dying(id)
        }),
{
    let w = v.with_node(id, body);
    crate::create::with_node_wf(v, id, body);
    crate::create::no_flags_not_dying();
    assert forall|n: NodeId| #[trigger] w.nodes.contains_key(n) implies w.body_ok(n) by {
        if n != id {
            assert(v.nodes.contains_key(n));
            assert(v.node_ok(n) && v.body_ok(n));
            if n.kind() == Some(NodeKind::Thread) {
                let key: ListKey = (n, Dir::Out, EdgeKind::InSpace);
                let s = v.lists[key];
                assert(v.lists.contains_key(key));
                assert(v.list_ok(key));
                if s.len() > 0 {
                    assert(v.edges.contains_key(s[0]));
                    assert(v.edge_ok(s[0]));
                }
                assert(w.root_table(n) == v.root_table(n));
            }
            crate::invariants::body_frame(v, w, n);
        } else {
            match body {
                Body::Process(p) => {
                    assert(w.handles_ok(id));
                },
                Body::AddressSpace(b) => {
                    assert(w.index_ok(id));
                },
                _ => {},
            }
        }
    }
    let s = choose|s: Seq<NodeId>| v.reaper_list(s);
    assert(v.reaper_list(s));
    assert forall|i: int| 0 <= i < s.len() implies w.live(#[trigger] s[i]) && w.dying(s[i])
        && s[i] != id by {
        assert(v.live(s[i]));
    }
    assert forall|i: int| 0 <= i < s.len() implies (#[trigger] w.nodes[s[i]]).next_dying == if i
        + 1 < s.len() {
        s[i + 1]
    } else {
        NodeId(0)
    } by {
        assert(v.live(s[i]));
        assert(v.nodes[s[i]].next_dying == w.nodes[s[i]].next_dying);
    }
    assert(w.reaper_list(s)) by {
        assert forall|n: NodeId| #[trigger] w.nodes.contains_key(n) && w.dying(n) implies
            s.contains(n) by {
            assert(v.nodes.contains_key(n));
        }
    }
    assert forall|n: NodeId| #[trigger] v.nodes.contains_key(n) implies w.owned_ok(n) by {
        assert(v.owned_ok(n));
        let key: ListKey = (n, Dir::In, EdgeKind::Owns);
        assert(v.lists.contains_key(key));
        if !v.dying(n) && n != v.root_id {
            let k = choose|k: nat| v.reaches(v.nodes[n].owner, k);
            crate::invariants::reaches_frame(v, w, v.nodes[n].owner, k);
        }
    }
    assert(w.roots_ok()) by {
        assert forall|n: NodeId| #[trigger]
            w.nodes.contains_key(n) && (w.dying(n) || n == w.root_id) implies w.nodes[n].owner
            == NodeId(0) by {
            if n != id {
                assert(v.nodes.contains_key(n));
            }
        }
    }
}

/// Creating the root keeps every invariant.
pub proof fn creating_the_root_keeps_invariants(v: GraphView, id: NodeId)
    requires
        v.wf(),
        v.inv(),
        v.root_id.is_null(),
        !v.live(id),
        id.kind() == Some(NodeKind::Root),
        id.generation() % 2 == 1,
    ensures
        (GraphView {
            root_id: id,
            ..v.with_node(id, Body::Root(<Root as crate::body::NodeBody>::spec_zero())).bumped()
        }).inv(),
{
    let body = Body::Root(<Root as crate::body::NodeBody>::spec_zero());
    with_node_keeps(v, id, body);
    let u = v.with_node(id, body);
    let w = GraphView { root_id: id, ..u.bumped() };
    assert forall|n: NodeId| #[trigger] w.nodes.contains_key(n) implies w.owned_ok(n) by {
        if n != id {
            assert(v.nodes.contains_key(n));
            assert(u.owned_ok(n));
            if !u.dying(n) {
                let k = choose|k: nat| u.reaches(u.nodes[n].owner, k);
                crate::invariants::reaches_frame(u, w, u.nodes[n].owner, k);
            }
        }
    }
    assert forall|n: NodeId| #[trigger] w.nodes.contains_key(n) implies w.body_ok(n) by {
        assert(u.nodes.contains_key(n));
        assert(u.body_ok(n));
        assert(w.root_table(n) == u.root_table(n));
        crate::invariants::body_frame(u, w, n);
    }
    let s = choose|s: Seq<NodeId>| u.reaper_list(s);
    assert(u.reaper_list(s));
    assert(w.reaper_list(s));
    assert(w.roots_ok()) by {
        assert forall|n: NodeId| #[trigger]
            w.nodes.contains_key(n) && (w.dying(n) || n == w.root_id) implies w.nodes[n].owner
            == NodeId(0) by {
            assert(u.nodes.contains_key(n));
        }
    }
}

/// A live node that is not going away leads to the root.
pub proof fn living_nodes_are_anchored(v: GraphView, id: NodeId)
    requires
        v.wf(),
        v.inv(),
        v.live(id),
    ensures
        v.anchored(id),
{
    assert(v.nodes.contains_key(id));
    assert(v.owned_ok(id));
    if id == v.root_id {
        assert(v.node_ok(id));
        assert(v.reaches(id, 0));
    } else if v.dying(id) {
        crate::id::node_id_parts(NodeId(0));
        assert(v.nodes[id].owner == NodeId(0));
        assert(v.reaches(id, 0));
    } else {
        let n = choose|n: nat| v.reaches(v.nodes[id].owner, n);
        let ow = v.list(id, Dir::In, EdgeKind::Owns);
        let key: ListKey = (id, Dir::In, EdgeKind::Owns);
        assert(v.lists.contains_key(key));
        assert(v.list_ok(key));
        assert(v.edges.contains_key(ow[0]));
        assert(v.edge_ok(ow[0]));
        assert(v.node_ok(v.edges[ow[0]].src));
        assert(v.reaches(id, n + 1));
    }
}

/// Creating a node under an owner keeps every invariant: the node has exactly
/// one owner from the moment it exists.
pub proof fn creating_keeps_invariants(
    v: GraphView,
    owner: NodeId,
    id: NodeId,
    body: Body,
    e: u32,
    g: u32,
)
    requires
        v.wf(),
        v.inv(),
        v.live(owner),
        !v.dying(owner),
        !v.live(id),
        id.kind() == Some(body.kind()),
        id.generation() % 2 == 1,
        body.bounded(),
        body.fresh(),
        !v.edges.contains_key(e),
        0 < e < MAX_EDGES,
        g % 2 == 1,
        crate::id::spec_compatible(EdgeKind::Owns, owner.kind()->Some_0, body.kind()),
    ensures
        v.with_node(id, body).link(
            owner,
            EdgeKind::Owns,
            id,
            crate::edge::zeros(24),
            e,
            g,
        ).wf(),
        v.with_node(id, body).link(
            owner,
            EdgeKind::Owns,
            id,
            crate::edge::zeros(24),
            e,
            g,
        ).inv(),
{
    let z = crate::edge::zeros(24);
    with_node_keeps(v, id, body);
    let u = v.with_node(id, body);
    let w = u.link(owner, EdgeKind::Owns, id, z, e, g);
    assert(v.nodes.contains_key(owner));
    assert(v.node_ok(owner));
    assert(u.live(owner) && u.live(id));
    crate::link::link_wf(u, owner, EdgeKind::Owns, id, z, e, g);
    assert forall|n: NodeId| #[trigger] w.nodes.contains_key(n) implies w.body_ok(n) by {
        assert(u.nodes.contains_key(n));
        assert(u.body_ok(n));
        crate::invariants::link_keeps_bodies(u, owner, EdgeKind::Owns, id, z, e, g, n);
    }
    assert forall|n: NodeId| #[trigger] w.nodes.contains_key(n) implies w.owned_ok(n) by {
        assert(u.nodes.contains_key(n));
        if n == id {
            living_nodes_are_anchored(v, owner);
            let k = choose|k: nat| v.reaches(owner, k);
            crate::invariants::reaches_frame(v, w, owner, k);
            let ow = w.list(id, Dir::In, EdgeKind::Owns);
            assert(ow =~= seq![e]);
            if id == w.root_id {
                assert(!v.root_id.is_null());
                assert(v.live(v.root_id));
            }
        } else {
            assert(v.nodes.contains_key(n));
            assert(u.owned_ok(n));
            let key: ListKey = (n, Dir::In, EdgeKind::Owns);
            assert(u.lists.contains_key(key));
            assert(u.list_ok(key));
            assert(w.lists[key] == u.lists[key]);
            if !u.dying(n) && n != u.root_id {
                let ow = u.lists[key];
                assert(u.edges.contains_key(ow[0]));
                assert(v.owned_ok(n));
                let k = choose|k: nat| v.reaches(v.nodes[n].owner, k);
                crate::invariants::reaches_frame(v, w, v.nodes[n].owner, k);
            }
        }
    }
    let s = choose|s: Seq<NodeId>| u.reaper_list(s);
    assert(u.reaper_list(s));
    assert forall|i: int| 0 <= i < s.len() implies (#[trigger] w.nodes[s[i]]).next_dying == if i
        + 1 < s.len() {
        s[i + 1]
    } else {
        NodeId(0)
    } by {
        assert(u.live(s[i]) && u.dying(s[i]));
        assert(u.nodes[s[i]].next_dying == w.nodes[s[i]].next_dying);
    }
    assert(w.reaper_list(s)) by {
        assert forall|i: int| 0 <= i < s.len() implies w.live(#[trigger] s[i]) && w.dying(s[i]) by {
            assert(u.live(s[i]) && u.dying(s[i]));
        }
        assert forall|n: NodeId| #[trigger] w.nodes.contains_key(n) && w.dying(n) implies
            s.contains(n) by {
            assert(u.nodes.contains_key(n));
        }
    }
    assert(w.roots_ok()) by {
        assert forall|n: NodeId| #[trigger]
            w.nodes.contains_key(n) && (w.dying(n) || n == w.root_id) implies w.nodes[n].owner
            == NodeId(0) by {
            assert(u.nodes.contains_key(n));
            if n == id {
                assert(v.live(v.root_id));
            }
        }
    }
}

/// Naming a node keeps every invariant.
pub proof fn naming_keeps_invariants(
    v: GraphView,
    root: NodeId,
    dst: NodeId,
    data: Seq<u8>,
    e: u32,
    g: u32,
)
    requires
        v.wf(),
        v.inv(),
        v.live(root),
        v.live(dst),
        !v.edges.contains_key(e),
    ensures
        v.link(root, EdgeKind::Named, dst, data, e, g).inv(),
{
    let w = v.link(root, EdgeKind::Named, dst, data, e, g);
    crate::invariants::link_keeps_tree(v, root, EdgeKind::Named, dst, data, e, g);
    crate::invariants::nodes_keep_roots(v, w);
    assert forall|n: NodeId| #[trigger] w.nodes.contains_key(n) implies w.body_ok(n) by {
        assert(v.nodes.contains_key(n));
        crate::invariants::link_keeps_bodies(v, root, EdgeKind::Named, dst, data, e, g, n);
    }
}

/// Installing a capability keeps every invariant.
pub proof fn granting_keeps_invariants(
    v: GraphView,
    holder: NodeId,
    target: NodeId,
    rights: Rights,
    slot: u32,
    e: EdgeId,
)
    requires
        v.wf(),
        v.inv(),
        v.live(holder),
        v.live(target),
        holder.kind() == Some(NodeKind::Process),
        1 <= slot < HANDLE_SLOTS,
        v.process(holder).handles@[slot as int] == 0,
        v.unused(e),
        crate::id::spec_compatible(EdgeKind::Holds, NodeKind::Process, target.kind()->Some_0),
    ensures
        v.granted(holder, target, rights, slot, e).wf(),
        v.granted(holder, target, rights, slot, e).inv(),
{
    let attr = HoldsAttr { rights, slot };
    let data = attr.spec_bytes();
    attr.round_trip();
    let ei = e.idx();
    let u = v.link(holder, EdgeKind::Holds, target, data, ei, e.generation());
    assert(v.nodes.contains_key(holder) && v.nodes.contains_key(target));
    assert(v.node_ok(holder) && v.node_ok(target));
    crate::link::link_wf(v, holder, EdgeKind::Holds, target, data, ei, e.generation());
    crate::invariants::link_keeps_tree(
        v,
        holder,
        EdgeKind::Holds,
        target,
        data,
        ei,
        e.generation(),
    );
    crate::invariants::nodes_keep_roots(v, u);
    assert forall|n: NodeId| #[trigger]
        u.nodes.contains_key(n) && n != holder implies u.body_ok(n) by {
        assert(v.nodes.contains_key(n));
        crate::invariants::link_keeps_bodies(
            v,
            holder,
            EdgeKind::Holds,
            target,
            data,
            ei,
            e.generation(),
            n,
        );
    }
    let p0 = v.process(holder);
    let p1 = p0.with_capability(slot, ei);
    let b = Body::Process(p1);
    let w = u.with_body(holder, b);
    assert(w == v.granted(holder, target, rights, slot, e));
    crate::view::array_of_exists::<HANDLE_SLOTS>(p0.handles@.update(slot as int, ei));
    assert(p1.handles@ == p0.handles@.update(slot as int, ei));
    crate::invariants::with_body_keeps_tree(u, holder, b);
    crate::invariants::with_body_keeps_roots(u, holder, b);
    assert forall|n: NodeId| #[trigger]
        w.nodes.contains_key(n) && n != holder implies w.body_ok(n) by {
        assert(u.nodes.contains_key(n));
        crate::invariants::with_body_keeps_bodies(u, holder, b, n);
    }
    assert(v.body_ok(holder));
    let h = p1.handles@;
    let out0 = v.list(holder, Dir::Out, EdgeKind::Holds);
    let out = w.list(holder, Dir::Out, EdgeKind::Holds);
    assert(out == out0.push(ei));
    let key: ListKey = (holder, Dir::Out, EdgeKind::Holds);
    assert(v.lists.contains_key(key));
    assert(v.list_ok(key));
    assert forall|i: int| 1 <= i < HANDLE_SLOTS && h[i] != 0 implies w.edges.contains_key(
        #[trigger] h[i],
    ) && w.edges[h[i]].kind == EdgeKind::Holds && w.edges[h[i]].src == holder && w.holds(h[i]).slot
        == i by {
        if i != slot {
            assert(h[i] == p0.handles@[i]);
            assert(v.edges.contains_key(p0.handles@[i]));
        }
    }
    assert forall|j: int| 0 <= j < out.len() implies 1 <= w.holds(#[trigger] out[j]).slot
        < HANDLE_SLOTS && h[w.holds(out[j]).slot as int] == out[j] by {
        if j < out0.len() {
            assert(out[j] == out0[j]);
            assert(v.edges.contains_key(out0[j]));
            assert(out0[j] != ei);
            assert(w.holds(out[j]) == v.holds(out0[j]));
            assert(p0.handles@[v.holds(out0[j]).slot as int] == out0[j]);
            assert(out0[j] != 0) by {
                assert(v.edge_ok(out0[j]));
            }
        }
    }
    assert(w.handles_ok(holder));
    crate::laws::inv_restored(w, holder);
}

/// Binding a thread to an address space keeps every invariant: the cached
/// page-table root follows the edge.
pub proof fn binding_a_space_keeps_invariants(v: GraphView, t: NodeId, s: NodeId, e: EdgeId)
    requires
        v.wf(),
        v.inv(),
        v.live(t),
        v.live(s),
        t.kind() == Some(NodeKind::Thread),
        s.kind() == Some(NodeKind::AddressSpace),
        v.unlink_first(t, Dir::Out, EdgeKind::InSpace).unused(e),
    ensures
        v.bound(t, s, e).wf(),
        v.bound(t, s, e).inv(),
        v.bound(t, s, e).thread(t).cr3 == v.space(s).pml4_phys,
{
    let key: ListKey = (t, Dir::Out, EdgeKind::InSpace);
    assert(v.lists.contains_key(key));
    assert(v.list_ok(key));
    assert(v.nodes.contains_key(t) && v.nodes.contains_key(s));
    assert(v.node_ok(t) && v.node_ok(s) && v.body_ok(t));
    let v1 = v.unlink_first(t, Dir::Out, EdgeKind::InSpace);
    if v.lists[key].len() > 0 {
        let old = v.lists[key][0];
        assert(v.edges.contains_key(old));
        crate::laws::unbinding_a_space_keeps_invariants(v, old);
        crate::laws::unlink_wf(v, old);
        crate::steps::unlink_keeps_nodes(v, old);
    }
    assert(v1.wf() && v1.inv());
    assert(v1.list(t, Dir::Out, EdgeKind::InSpace).len() == 0);
    assert(v1.nodes.contains_key(t) && v1.nodes.contains_key(s));
    assert(v1.node_ok(t) && v1.node_ok(s));
    assert(v1.space(s).pml4_phys == v.space(s).pml4_phys);
    let z = crate::edge::zeros(24);
    let (ei, eg) = (e.idx(), e.generation());
    let u = v1.link(t, EdgeKind::InSpace, s, z, ei, eg);
    crate::link::link_wf(v1, t, EdgeKind::InSpace, s, z, ei, eg);
    crate::invariants::link_keeps_tree(v1, t, EdgeKind::InSpace, s, z, ei, eg);
    crate::invariants::nodes_keep_roots(v1, u);
    assert forall|n: NodeId| #[trigger]
        u.nodes.contains_key(n) && n != t implies u.body_ok(n) by {
        assert(v1.nodes.contains_key(n));
        crate::invariants::link_keeps_bodies(v1, t, EdgeKind::InSpace, s, z, ei, eg, n);
    }
    let b = Body::Thread(Thread { cr3: u.space(s).pml4_phys, ..u.thread(t) });
    let w = u.with_body(t, b);
    crate::invariants::with_body_keeps_tree(u, t, b);
    crate::invariants::with_body_keeps_roots(u, t, b);
    assert forall|n: NodeId| #[trigger]
        w.nodes.contains_key(n) && n != t implies w.body_ok(n) by {
        assert(u.nodes.contains_key(n));
        crate::invariants::with_body_keeps_bodies(u, t, b, n);
    }
    assert(v1.body_ok(t));
    assert(w.list(t, Dir::Out, EdgeKind::InSpace) =~= seq![ei]);
    assert(w.cr3_ok(t));
    crate::laws::inv_restored(w, t);
}

/// A new mapping goes into the index where its address belongs.
#[verifier::spinoff_prover]
#[verifier::rlimit(60)]
proof fn mapping_keeps_index(v: GraphView, s: NodeId, m: NodeId, attr: MapsAttr, e: EdgeId)
    requires
        v.wf(),
        v.inv(),
        v.live(s),
        v.live(m),
        s.kind() == Some(NodeKind::AddressSpace),
        m.kind() == Some(NodeKind::MemoryObject),
        v.unused(e),
        v.space(s).mapping_count < MAX_MAPPINGS_PER_SPACE,
        v.memobj(m).map_count < u32::MAX,
        !v.collides(s, attr),
        v.is_range_slot(s, attr.vaddr, v.range_slot(s, attr.vaddr)),
    ensures
        v.mapped(s, m, attr, e).index_ok(s),
{
    let data = attr.spec_bytes();
    attr.round_trip();
    let (ei, eg) = (e.idx(), e.generation());
    assert(v.nodes.contains_key(s) && v.nodes.contains_key(m));
    assert(v.node_ok(s) && v.node_ok(m) && v.body_ok(s) && v.body_ok(m));
    let b0 = v.space(s);
    let pos = v.range_slot(s, attr.vaddr);
    let b = b0.with_range(pos, ei);
    let w = v.mapped(s, m, attr, e);
    let n0 = b0.mapping_count as int;
    let r = b0.ranges@.remove(n0).insert(pos, ei);
    crate::view::array_of_exists::<MAX_MAPPINGS_PER_SPACE>(r);
    assert(b.ranges@ == r);
    let key: ListKey = (s, Dir::Out, EdgeKind::Maps);
    let out0 = v.lists[key];
    let out = w.lists[key];
    assert(v.lists.contains_key(key));
    assert(v.list_ok(key));
    assert(out == out0.push(ei));
    assert forall|j: int| 0 <= j <= n0 implies #[trigger] b.ranges@[j] == if j < pos {
        b0.ranges@[j]
    } else if j == pos {
        ei
    } else {
        b0.ranges@[j - 1]
    } by {}
    assert forall|j: int| 0 <= j < n0 implies v.edges.contains_key(#[trigger] b0.ranges@[j])
        && b0.ranges@[j] != ei && w.maps(b0.ranges@[j]) == v.maps(b0.ranges@[j])
        && !v.maps(b0.ranges@[j]).spec_overlaps(attr) by {
        assert(v.edges.contains_key(b0.ranges@[j]));
    }
    assert(w.maps(ei) == attr);
    assert forall|i: int| 0 <= i < b.mapping_count implies w.edges.contains_key(
        #[trigger] b.ranges@[i],
    ) && w.edges[b.ranges@[i]].kind == EdgeKind::Maps && w.edges[b.ranges@[i]].src == s by {
        if i != pos {
            let q = if i < pos {
                i
            } else {
                i - 1
            };
            assert(b.ranges@[i] == b0.ranges@[q]);
            assert(v.edges.contains_key(b0.ranges@[q]));
        }
    }
    assert forall|i: int, j: int| 0 <= i < j < b.mapping_count implies w.maps(
        #[trigger] b.ranges@[i],
    ).end_at() <= w.maps(#[trigger] b.ranges@[j]).vaddr by {
        let qi = if i < pos {
            i
        } else {
            i - 1
        };
        let qj = if j < pos {
            j
        } else {
            j - 1
        };
        if i != pos && j != pos {
            assert(b.ranges@[i] == b0.ranges@[qi] && b.ranges@[j] == b0.ranges@[qj]);
            assert(v.maps(b0.ranges@[qi]).end_at() <= v.maps(b0.ranges@[qj]).vaddr);
        } else if j == pos {
            assert(b.ranges@[i] == b0.ranges@[i]);
            assert(v.range_end(b0.ranges@[i]) <= attr.vaddr);
        } else {
            assert(b.ranges@[j] == b0.ranges@[j - 1]);
            assert(v.range_end(b0.ranges@[pos]) > attr.vaddr);
            if j - 1 > pos {
                assert(v.maps(b0.ranges@[pos]).end_at() <= v.maps(b0.ranges@[j - 1]).vaddr);
            }
            assert(!v.maps(b0.ranges@[pos]).spec_overlaps(attr));
        }
    }
    assert forall|i: int| 0 <= i < out.len() implies b.indexed().contains(#[trigger] out[i]) by {
        if i < out0.len() {
            assert(out[i] == out0[i]);
            assert(b0.indexed().contains(out0[i]));
            let q = b0.indexed().index_of(out0[i]);
            assert(b0.ranges@[q] == out0[i]);
            let j = if q < pos {
                q
            } else {
                q + 1
            };
            assert(b.indexed()[j] == out0[i]);
        } else {
            assert(b.indexed()[pos] == ei);
        }
    }
}

/// An index with room for one more stays inside its table.
proof fn indexing_stays_bounded(b: AddressSpace, pos: int, e: u32)
    requires
        b.bounded(),
        b.mapping_count < MAX_MAPPINGS_PER_SPACE,
        0 <= pos <= b.mapping_count,
        e < MAX_EDGES,
    ensures
        b.with_range(pos, e).bounded(),
{
    let r = b.ranges@.remove(b.mapping_count as int).insert(pos, e);
    crate::view::array_of_exists::<MAX_MAPPINGS_PER_SPACE>(r);
    assert(b.with_range(pos, e).ranges@ == r);
    assert forall|i: int| 0 <= i < MAX_MAPPINGS_PER_SPACE implies #[trigger] r[i] < MAX_EDGES by {
        let j = if i <= pos {
            i
        } else {
            i - 1
        };
        if i != pos {
            if j < b.mapping_count {
                assert(r[i] == b.ranges@[j]);
            } else {
                assert(r[i] == b.ranges@[j + 1]);
            }
        }
    }
}

/// Mapping keeps every invariant: both counts, and the order of the index.
pub proof fn mapping_keeps_invariants(
    v: GraphView,
    s: NodeId,
    m: NodeId,
    attr: MapsAttr,
    e: EdgeId,
)
    requires
        v.wf(),
        v.inv(),
        v.live(s),
        v.live(m),
        s.kind() == Some(NodeKind::AddressSpace),
        m.kind() == Some(NodeKind::MemoryObject),
        v.unused(e),
        v.space(s).mapping_count < MAX_MAPPINGS_PER_SPACE,
        v.memobj(m).map_count < u32::MAX,
        !v.collides(s, attr),
        v.is_range_slot(s, attr.vaddr, v.range_slot(s, attr.vaddr)),
    ensures
        v.mapped(s, m, attr, e).wf(),
        v.mapped(s, m, attr, e).inv(),
{
    let data = attr.spec_bytes();
    attr.round_trip();
    let (ei, eg) = (e.idx(), e.generation());
    assert(v.nodes.contains_key(s) && v.nodes.contains_key(m));
    assert(v.node_ok(s) && v.node_ok(m) && v.body_ok(s) && v.body_ok(m));
    let u = v.link(s, EdgeKind::Maps, m, data, ei, eg);
    crate::link::link_wf(v, s, EdgeKind::Maps, m, data, ei, eg);
    crate::invariants::link_keeps_tree(v, s, EdgeKind::Maps, m, data, ei, eg);
    crate::invariants::nodes_keep_roots(v, u);
    let bm = Body::MemoryObject(
        MemoryObject { map_count: (v.memobj(m).map_count + 1) as u32, ..v.memobj(m) },
    );
    let b0 = v.space(s);
    let pos = v.range_slot(s, attr.vaddr);
    let b = b0.with_range(pos, ei);
    let bs = Body::AddressSpace(b);
    let u1 = u.with_body(m, bm);
    let w = u1.with_body(s, bs);
    assert(w == v.mapped(s, m, attr, e));
    crate::graph::view_body_wf(u, m, bm);
    crate::invariants::with_body_keeps_tree(u, m, bm);
    crate::invariants::with_body_keeps_roots(u, m, bm);
    indexing_stays_bounded(b0, pos, ei);
    crate::graph::view_body_wf(u1, s, bs);
    crate::invariants::with_body_keeps_tree(u1, s, bs);
    crate::invariants::with_body_keeps_roots(u1, s, bs);
    assert forall|n: NodeId| #[trigger]
        w.nodes.contains_key(n) && n != m && n != s implies w.body_ok(n) by {
        assert(v.nodes.contains_key(n));
        crate::invariants::link_keeps_bodies(v, s, EdgeKind::Maps, m, data, ei, eg, n);
        crate::invariants::with_body_keeps_bodies(u, m, bm, n);
        crate::invariants::with_body_keeps_bodies(u1, s, bs, n);
    }
    assert(w.list(m, Dir::In, EdgeKind::Maps) == v.list(m, Dir::In, EdgeKind::Maps).push(ei));
    assert(w.map_count_ok(m));
    mapping_keeps_index(v, s, m, attr, e);
    assert(w.index_ok(s));
    assert forall|n: NodeId| #[trigger] w.nodes.contains_key(n) implies w.body_ok(n) by {}
}

} // verus!

//! Deletion keeps every invariant, and destroys exactly what hangs off it.

use vstd::prelude::*;

use crate::body::{Body, Thread, ThreadState};
use crate::edge::Dir;
use crate::graph::Graph;
use crate::id::{EdgeKind, NodeId, NodeKind};
use crate::reap::ReapStep;
use crate::slab::FLAG_DYING;
use crate::view::{GraphView, ListKey, NodeView};

verus! {

impl GraphView {
    /// The invariants of the ownership tree and of the reaper's list.
    pub open spec fn tree_inv(self) -> bool {
        &&& self.all_owned()
        &&& self.roots_ok()
        &&& exists|s: Seq<NodeId>| self.reaper_list(s)
    }

    /// Nothing that the tree or the reaper's list is made of differs.
    pub open spec fn same_tree(self, o: GraphView) -> bool {
        &&& self.nodes.dom() == o.nodes.dom()
        &&& self.root_id == o.root_id
        &&& self.dying_head == o.dying_head
        &&& forall|n: NodeId| #[trigger]
            o.nodes.contains_key(n) ==> {
                &&& self.nodes[n].owner == o.nodes[n].owner
                &&& self.nodes[n].flags == o.nodes[n].flags
                &&& self.nodes[n].next_dying == o.nodes[n].next_dying
                &&& self.list(n, Dir::In, EdgeKind::Owns) == o.list(n, Dir::In, EdgeKind::Owns)
                &&& self.list(n, Dir::Out, EdgeKind::Owns) == o.list(n, Dir::Out, EdgeKind::Owns)
            }
        &&& forall|e: u32| #[trigger]
            o.edges.contains_key(e) && o.edges[e].kind == EdgeKind::Owns
                ==> self.edges.contains_key(e) && self.edges[e] == o.edges[e]
    }
}

proof fn same_dom(v: GraphView, w: GraphView, n: NodeId)
    requires
        w.nodes.dom() == v.nodes.dom(),
    ensures
        w.nodes.contains_key(n) == v.nodes.contains_key(n),
{
    assert(w.nodes.dom().contains(n) == v.nodes.dom().contains(n));
}

proof fn same_tree_keeps(v: GraphView, w: GraphView)
    requires
        v.wf(),
        w.same_tree(v),
        v.tree_inv(),
    ensures
        w.tree_inv(),
{
    crate::invariants::owned_frame(v, w);
    crate::invariants::nodes_keep_roots(v, w);
}

/// Removing any edge but an `Owns` edge leaves the tree alone.
proof fn unlink_same_tree(v: GraphView, e: u32)
    requires
        v.wf(),
        v.edges.contains_key(e),
        v.edges[e].kind != EdgeKind::Owns,
    ensures
        v.unlink(e).wf(),
        v.unlink(e).same_tree(v),
{
    crate::laws::unlink_wf(v, e);
    crate::steps::unlink_keeps_nodes(v, e);
    let x = v.edges[e];
    assert(v.edge_ok(e));
    let w = v.unlink(e);
    assert forall|n: NodeId| #[trigger] v.nodes.contains_key(n) implies w.nodes[n].owner
        == v.nodes[n].owner && w.nodes[n].flags == v.nodes[n].flags && w.nodes[n].next_dying
        == v.nodes[n].next_dying && w.list(n, Dir::In, EdgeKind::Owns) == v.list(
        n,
        Dir::In,
        EdgeKind::Owns,
    ) && w.list(n, Dir::Out, EdgeKind::Owns) == v.list(n, Dir::Out, EdgeKind::Owns) by {
        assert(w.nodes[n].flags == v.nodes[n].flags);
    }
}

proof fn unlink_first_same_tree(v: GraphView, id: NodeId, dir: Dir, kind: EdgeKind)
    requires
        v.wf(),
        v.live(id),
        kind != EdgeKind::Owns,
    ensures
        v.unlink_first(id, dir, kind).wf(),
        v.unlink_first(id, dir, kind).same_tree(v),
{
    let key: ListKey = (id, dir, kind);
    assert(v.lists.contains_key(key));
    assert(v.list_ok(key));
    if v.lists[key].len() > 0 {
        assert(v.edges.contains_key(v.lists[key][0]));
        unlink_same_tree(v, v.lists[key][0]);
    }
}

/// Flags, reaper links and the like are no part of well-formedness.
pub proof fn header_wf(v: GraphView, id: NodeId, n: NodeView)
    requires
        v.wf(),
        v.live(id),
        n.body == v.nodes[id].body,
    ensures
        (GraphView { nodes: v.nodes.insert(id, n), ..v }).wf(),
{
    let w = GraphView { nodes: v.nodes.insert(id, n), ..v };
    assert forall|e: u32| #[trigger] w.edges.contains_key(e) implies w.edge_ok(e) by {
        assert(v.edges.contains_key(e));
        assert(v.edge_ok(e));
    }
    assert forall|key: ListKey| #[trigger] w.lists.contains_key(key) implies w.list_ok(key) by {
        assert(v.lists.contains_key(key));
        assert(v.list_ok(key));
    }
    assert forall|key: ListKey| #[trigger] w.lists.contains_key(key) <==> w.nodes.contains_key(
        key.0,
    ) by {
        assert(v.lists.contains_key(key) <==> v.nodes.contains_key(key.0));
    }
    assert forall|m: NodeId| #[trigger] w.nodes.contains_key(m) implies w.node_ok(m) by {
        assert(v.nodes.contains_key(m));
        assert(v.node_ok(m));
        assert(v.node_ok(id));
    }
}

proof fn marking_marks(flags: u8)
    ensures
        (flags | FLAG_DYING) & FLAG_DYING != 0,
{
    assert((flags | 1u8) & 1u8 != 0) by (bit_vector);
}

/// A node marked and taken out of the tree, its place among its siblings
/// included: the first half of deletion, which is all the tree sees of it.
proof fn marked_and_disowned(v: GraphView, id: NodeId)
    requires
        v.wf(),
        v.tree_inv(),
        v.live(id),
        !v.dying(id),
    ensures
        ({
            let w = v.marked(id).unlink_first(id, Dir::In, EdgeKind::Owns);
            &&& w.wf()
            &&& w.nodes.dom() == v.nodes.dom()
            &&& w.root_id == v.root_id
            &&& w.dying_head == v.dying_head
            &&& w.dying(id)
            &&& w.nodes[id].owner == NodeId(0)
            &&& w.nodes[id].next_dying == v.nodes[id].next_dying
            &&& w.nodes[id].body == v.nodes[id].body
            &&& w.list(id, Dir::In, EdgeKind::Owns).len() == 0
            &&& forall|n: NodeId| #[trigger]
                v.nodes.contains_key(n) && n != id ==> w.nodes[n] == v.nodes[n] && w.list(
                    n,
                    Dir::In,
                    EdgeKind::Owns,
                ) == v.list(n, Dir::In, EdgeKind::Owns)
            &&& forall|key: ListKey| #[trigger]
                v.lists.contains_key(key) && key.2 != EdgeKind::Owns ==> w.lists[key]
                    == v.lists[key]
            &&& forall|e: u32| #[trigger]
                v.edges.contains_key(e) && !(v.edges[e].kind == EdgeKind::Owns && v.edges[e].dst
                    == id) ==> w.edges.contains_key(e) && w.edges[e] == v.edges[e]
        }),
{
    let a = v.marked(id);
    let w = a.unlink_first(id, Dir::In, EdgeKind::Owns);
    header_wf(v, id, NodeView { flags: v.nodes[id].flags | FLAG_DYING, ..v.nodes[id] });
    marking_marks(v.nodes[id].flags);
    assert(v.nodes.contains_key(id));
    assert(v.owned_ok(id));
    let key: ListKey = (id, Dir::In, EdgeKind::Owns);
    assert(v.lists.contains_key(key));
    assert(v.list_ok(key));
    assert(a.nodes.dom() =~= v.nodes.dom());
    let s = v.lists[key];
    if s.len() > 0 {
        let e = s[0];
        assert(a.edges.contains_key(e));
        crate::laws::unlink_wf(a, e);
        crate::steps::unlink_keeps_nodes(a, e);
        crate::slab::without_facts(s, e);
        assert(a.edge_ok(e));
    } else {
        assert(id == v.root_id);
    }
}

/// Following owners still comes to an anchor: the deleted node has become one.
proof fn reaches_past_deleted(v: GraphView, w: GraphView, id: NodeId, x: NodeId, n: nat)
    requires
        v.reaches(x, n),
        w.root_id == v.root_id,
        w.live(id),
        w.nodes[id].owner.is_null(),
        w.dying(id),
        forall|m: NodeId| #[trigger]
            v.nodes.contains_key(m) && m != id ==> w.nodes.contains_key(m) && w.nodes[m].owner
                == v.nodes[m].owner && w.dying(m) == v.dying(m),
    ensures
        w.reaches(x, n),
    decreases n,
{
    if !(!v.root_id.is_null() && x == v.root_id) && x != id {
        assert(v.nodes.contains_key(x));
        if !v.nodes[x].owner.is_null() {
            reaches_past_deleted(v, w, id, v.nodes[x].owner, (n - 1) as nat);
        }
    }
}

/// Beginning a deletion keeps the tree: the node is out of it, and what it
/// owns leads to it and no further.
pub proof fn deleting_keeps_the_tree(v: GraphView, id: NodeId)
    requires
        v.wf(),
        v.tree_inv(),
    ensures
        v.deleted(id).wf(),
        v.deleted(id).tree_inv(),
        v.live(id) ==> v.deleted(id).live(id) && v.deleted(id).dying(id),
        v.deleted(id).nodes.dom() == v.nodes.dom(),
        v.deleted(id).root_id == v.root_id,
        forall|n: NodeId| #[trigger]
            v.nodes.contains_key(n) && n != id ==> v.deleted(id).nodes[n].owner
                == v.nodes[n].owner && v.deleted(id).nodes[n].flags == v.nodes[n].flags,
{
    let w = v.deleted(id);
    if v.live(id) && !v.dying(id) {
        marked_and_disowned(v, id);
        let b = v.marked(id).unlink_first(id, Dir::In, EdgeKind::Owns);
        same_dom(v, b, id);
        unlink_first_same_tree(b, id, Dir::In, EdgeKind::Ready);
        let c = b.unlink_first(id, Dir::In, EdgeKind::Ready);
        same_dom(b, c, id);
        unlink_first_same_tree(c, id, Dir::Out, EdgeKind::Waiting);
        let d = c.unlink_first(id, Dir::Out, EdgeKind::Waiting);
        same_dom(c, d, id);
        assert(d.nodes.contains_key(id));
        assert(d.node_ok(id));
        let e = d.stopped(id);
        if id.kind() == Some(NodeKind::Thread) {
            crate::graph::view_body_wf(
                d,
                id,
                Body::Thread(Thread { state: ThreadState::Dying, ..d.thread(id) }),
            );
        }
        assert(e.nodes.dom() =~= d.nodes.dom());
        header_wf(e, id, NodeView { next_dying: e.dying_head, ..e.nodes[id] });
        let f = e.with_next_dying(id, e.dying_head);
        assert(w == GraphView { dying_head: id, seq: f.seq + 1, ..f });
        assert(w.wf()) by {
            wf_frame(f, w);
        }
        assert(w.nodes.dom() =~= v.nodes.dom());
        assert forall|n: NodeId| #[trigger] v.nodes.contains_key(n) implies ({
            &&& w.nodes.contains_key(n)
            &&& n != id ==> w.nodes[n].owner == v.nodes[n].owner && w.nodes[n].flags
                == v.nodes[n].flags && w.nodes[n].next_dying == v.nodes[n].next_dying
            &&& n != id ==> w.list(n, Dir::In, EdgeKind::Owns) == v.list(
                n,
                Dir::In,
                EdgeKind::Owns,
            )
        }) by {
            same_dom(v, b, n);
            same_dom(b, c, n);
            same_dom(c, d, n);
        }
        assert(w.dying(id) && w.nodes[id].owner == NodeId(0));
        assert(w.list(id, Dir::In, EdgeKind::Owns).len() == 0);
        crate::id::node_id_parts(NodeId(0));
        assert forall|n: NodeId| #[trigger] w.nodes.contains_key(n) implies w.owned_ok(n) by {
            same_dom(v, w, n);
            assert(v.nodes.contains_key(n));
            assert(v.owned_ok(n));
            if n != id {
                let key: ListKey = (n, Dir::In, EdgeKind::Owns);
                assert(v.lists.contains_key(key));
                assert(v.list_ok(key));
                if !v.dying(n) && n != v.root_id {
                    let ow = v.lists[key];
                    assert(v.edges.contains_key(ow[0]));
                    assert(b.edges.contains_key(ow[0]));
                    let k = choose|k: nat| v.reaches(v.nodes[n].owner, k);
                    reaches_past_deleted(v, w, id, v.nodes[n].owner, k);
                }
            }
        }
        let s = choose|s: Seq<NodeId>| v.reaper_list(s);
        assert(v.reaper_list(s));
        let t = seq![id] + s;
        assert(!s.contains(id)) by {
            if s.contains(id) {
                let i = s.index_of(id);
                assert(v.live(s[i]) && v.dying(s[i]));
            }
        }
        assert forall|i: int| 0 <= i < t.len() implies w.live(#[trigger] t[i]) && w.dying(
            t[i],
        ) by {
            if i > 0 {
                assert(t[i] == s[i - 1]);
                assert(v.live(s[i - 1]) && v.dying(s[i - 1]));
                assert(v.nodes.contains_key(s[i - 1]));
                assert(s.contains(s[i - 1]));
            }
        }
        assert forall|i: int| 0 <= i < t.len() implies (#[trigger] w.nodes[t[i]]).next_dying
            == if i + 1 < t.len() {
            t[i + 1]
        } else {
            NodeId(0)
        } by {
            if i > 0 {
                assert(t[i] == s[i - 1]);
                assert(v.live(s[i - 1]));
                assert(v.nodes.contains_key(s[i - 1]));
                assert(s.contains(s[i - 1]));
                assert(v.nodes[s[i - 1]].next_dying == w.nodes[t[i]].next_dying);
            }
        }
        assert(t.no_duplicates());
        assert forall|n: NodeId| #[trigger] w.nodes.contains_key(n) && w.dying(n) implies
            t.contains(n) by {
            same_dom(v, w, n);
            assert(v.nodes.contains_key(n));
            if n == id {
                assert(t[0] == id);
            } else {
                assert(v.dying(n));
                assert(s.contains(n));
                let i = s.index_of(n);
                assert(t[i + 1] == n);
            }
        }
        assert(w.reaper_list(t));
        assert forall|n: NodeId| #[trigger]
            w.nodes.contains_key(n) && (w.dying(n) || n == w.root_id) implies w.nodes[n].owner
            == NodeId(0) by {
            same_dom(v, w, n);
            assert(v.nodes.contains_key(n));
        }
    }
}

/// The sequence number and the reaper's head are no part of well-formedness.
proof fn wf_frame(v: GraphView, w: GraphView)
    requires
        v.wf(),
        w == (GraphView { dying_head: w.dying_head, seq: w.seq, ..v }),
    ensures
        w.wf(),
{
    assert forall|e: u32| #[trigger] w.edges.contains_key(e) implies w.edge_ok(e) by {
        assert(v.edges.contains_key(e));
        assert(v.edge_ok(e));
    }
    assert forall|key: ListKey| #[trigger] w.lists.contains_key(key) implies w.list_ok(key) by {
        assert(v.lists.contains_key(key));
        assert(v.list_ok(key));
    }
    assert forall|m: NodeId| #[trigger] w.nodes.contains_key(m) implies w.node_ok(m) by {
        assert(v.nodes.contains_key(m));
        assert(v.node_ok(m));
    }
}

/// Beginning a deletion keeps every body in agreement with its edges.
pub proof fn deleting_keeps_bodies(v: GraphView, id: NodeId)
    requires
        v.wf(),
        v.tree_inv(),
        v.all_bodies(),
    ensures
        v.deleted(id).all_bodies(),
{
    let w = v.deleted(id);
    if v.live(id) && !v.dying(id) {
        assert(v.nodes.contains_key(id));
        assert(v.node_ok(id) && v.body_ok(id));
        marked_and_disowned(v, id);
        let b = v.marked(id).unlink_first(id, Dir::In, EdgeKind::Owns);
        same_dom(v, b, id);
        // Other bodies do not see the mark or the missing owner.
        assert forall|n: NodeId| #[trigger]
            b.nodes.contains_key(n) && n != id implies b.body_ok(n) by {
            same_dom(v, b, n);
            assert(v.nodes.contains_key(n));
            assert(v.node_ok(n) && v.body_ok(n));
            lists_of(v, n);
            if n.kind() == Some(NodeKind::Thread) {
                crate::laws::root_table_stays(v, b, n);
            }
            crate::invariants::body_frame(v, b, n);
        }
        lists_of(v, id);
        if id.kind() == Some(NodeKind::Thread) {
            crate::laws::root_table_stays(v, b, id);
            let key: ListKey = (id, Dir::In, EdgeKind::Ready);
            let key2: ListKey = (id, Dir::Out, EdgeKind::Waiting);
            assert(b.lists.contains_key(key) && b.lists.contains_key(key2));
            assert(b.list_ok(key) && b.list_ok(key2));
            deleting_a_thread_keeps_bodies(v, b, id);
        } else {
            no_scheduler_edges(b, id);
            assert(b.cut_off_same(id));
            let f = b.with_next_dying(id, b.dying_head);
            assert(w == GraphView { dying_head: id, seq: f.seq + 1, ..f });
            assert forall|n: NodeId| #[trigger] w.nodes.contains_key(n) implies w.body_ok(n) by {
                assert(b.nodes.contains_key(n));
                assert(b.node_ok(n));
                if n == id {
                    match v.nodes[id].body {
                        Body::Process(_) => {
                            plain_body_frame(v, w, id);
                        },
                        Body::AddressSpace(_) => {
                            plain_body_frame(v, w, id);
                        },
                        _ => {},
                    }
                } else {
                    if n.kind() == Some(NodeKind::Thread) {
                        crate::laws::root_table_stays(b, w, n);
                    }
                    crate::invariants::body_frame(b, w, n);
                }
            }
        }
    }
}

/// Every list of a live node is there.
proof fn lists_of(v: GraphView, n: NodeId)
    requires
        v.wf(),
        v.live(n),
    ensures
        forall|d: Dir, k: EdgeKind| #[trigger] v.lists.contains_key((n, d, k)),
{
    assert forall|d: Dir, k: EdgeKind| #[trigger] v.lists.contains_key((n, d, k)) by {
        let key: ListKey = (n, d, k);
        assert(v.lists.contains_key(key) <==> v.nodes.contains_key(key.0));
    }
}

impl GraphView {
    /// Nothing ties the node to a scheduler.
    pub open spec fn cut_off_same(self, id: NodeId) -> bool {
        self.unlink_first(id, Dir::In, EdgeKind::Ready).unlink_first(
            id,
            Dir::Out,
            EdgeKind::Waiting,
        ) == self
    }
}

/// Only a thread has scheduler edges.
proof fn no_scheduler_edges(v: GraphView, id: NodeId)
    requires
        v.wf(),
        v.live(id),
        id.kind() != Some(NodeKind::Thread),
    ensures
        v.list(id, Dir::In, EdgeKind::Ready).len() == 0,
        v.list(id, Dir::Out, EdgeKind::Waiting).len() == 0,
        v.cut_off_same(id),
{
    let key: ListKey = (id, Dir::In, EdgeKind::Ready);
    let key2: ListKey = (id, Dir::Out, EdgeKind::Waiting);
    assert(v.lists.contains_key(key) && v.lists.contains_key(key2));
    assert(v.list_ok(key) && v.list_ok(key2));
    if v.lists[key].len() > 0 {
        assert(v.edges.contains_key(v.lists[key][0]));
        assert(v.edge_ok(v.lists[key][0]));
    }
    if v.lists[key2].len() > 0 {
        assert(v.edges.contains_key(v.lists[key2][0]));
        assert(v.edge_ok(v.lists[key2][0]));
    }
}

/// A handle table or a range index does not see flags.
proof fn plain_body_frame(v: GraphView, w: GraphView, id: NodeId)
    requires
        v.wf(),
        v.live(id),
        v.body_ok(id),
        w.live(id),
        v.nodes[id].body is Process || v.nodes[id].body is AddressSpace,
        w.nodes[id].body == v.nodes[id].body,
        w.list(id, Dir::Out, EdgeKind::Holds) == v.list(id, Dir::Out, EdgeKind::Holds),
        w.list(id, Dir::Out, EdgeKind::Maps) == v.list(id, Dir::Out, EdgeKind::Maps),
        forall|e: u32| #[trigger]
            v.edges.contains_key(e) && v.edges[e].src == id && (v.edges[e].kind == EdgeKind::Holds
                || v.edges[e].kind == EdgeKind::Maps) ==> w.edges.contains_key(e) && w.edges[e]
                == v.edges[e],
    ensures
        w.body_ok(id),
{
    let u = v.with_flags(id, w.nodes[id].flags);
    assert(v.nodes.contains_key(id));
    assert(v.node_ok(id));
    header_wf(v, id, NodeView { flags: w.nodes[id].flags, ..v.nodes[id] });
    assert(u.body_ok(id));
    crate::invariants::body_frame(u, w, id);
}

/// The second half of deletion, for a thread.
proof fn deleting_a_thread_keeps_bodies(v: GraphView, b: GraphView, id: NodeId)
    requires
        v.wf(),
        v.tree_inv(),
        v.all_bodies(),
        v.live(id),
        !v.dying(id),
        id.kind() == Some(NodeKind::Thread),
        b == v.marked(id).unlink_first(id, Dir::In, EdgeKind::Owns),
        b.wf(),
        b.live(id),
        b.dying(id),
        b.bodies_but(id),
        b.nodes[id].body == v.nodes[id].body,
        b.root_table(id) == v.root_table(id),
        b.list(id, Dir::In, EdgeKind::Ready) == v.list(id, Dir::In, EdgeKind::Ready),
        b.list(id, Dir::Out, EdgeKind::Waiting) == v.list(id, Dir::Out, EdgeKind::Waiting),
        b.list(id, Dir::Out, EdgeKind::InSpace) == v.list(id, Dir::Out, EdgeKind::InSpace),
    ensures
        v.deleted(id).all_bodies(),
{
    let w = v.deleted(id);
    assert(v.nodes.contains_key(id));
    assert(v.node_ok(id) && v.body_ok(id));
    let c = b.unlink_first(id, Dir::In, EdgeKind::Ready);
    thread_loses(b, id, Dir::In, EdgeKind::Ready);
    let d = c.unlink_first(id, Dir::Out, EdgeKind::Waiting);
    thread_loses(c, id, Dir::Out, EdgeKind::Waiting);
    assert(d.nodes.contains_key(id));
    assert(d.node_ok(id));
    let nb = Thread { state: ThreadState::Dying, ..d.thread(id) };
    let e = d.stopped(id);
    assert(e == d.with_body(id, Body::Thread(nb)));
    crate::graph::view_body_wf(d, id, Body::Thread(nb));
    let f = e.with_next_dying(id, e.dying_head);
    assert(w == GraphView { dying_head: id, seq: f.seq + 1, ..f });
    crate::laws::root_table_stays(d, e, id);
    crate::laws::root_table_stays(e, w, id);
    assert forall|n: NodeId| #[trigger] w.nodes.contains_key(n) implies w.body_ok(n) by {
        assert(d.nodes.contains_key(n));
        assert(d.node_ok(n));
        if n != id {
            crate::invariants::with_body_keeps_bodies(d, id, Body::Thread(nb), n);
            assert(e.nodes.contains_key(n));
            if n.kind() == Some(NodeKind::Thread) {
                crate::laws::root_table_stays(e, w, n);
            }
            crate::invariants::body_frame(e, w, n);
        }
    }
}

/// A thread loses the first edge of one of its scheduler lists, and no other
/// body notices.
proof fn thread_loses(v: GraphView, t: NodeId, dir: Dir, kind: EdgeKind)
    requires
        v.wf(),
        v.live(t),
        t.kind() == Some(NodeKind::Thread),
        v.bodies_but(t),
        v.single_ok(t),
        v.cr3_ok(t),
        dir == Dir::In && kind == EdgeKind::Ready || dir == Dir::Out && kind == EdgeKind::Waiting,
    ensures
        ({
            let w = v.unlink_first(t, dir, kind);
            &&& w.wf()
            &&& w.live(t)
            &&& w.bodies_but(t)
            &&& w.single_ok(t)
            &&& w.cr3_ok(t)
            &&& w.dying(t) == v.dying(t)
            &&& w.list(t, dir, kind).len() == 0
            &&& forall|d: Dir, k: EdgeKind|
                !(d == dir && k == kind) ==> #[trigger] w.list(t, d, k) == v.list(t, d, k)
        }),
{
    let key: ListKey = (t, dir, kind);
    assert(v.lists.contains_key(key));
    assert(v.list_ok(key));
    assert(v.nodes.contains_key(t));
    assert(v.node_ok(t));
    let s = v.lists[key];
    let w = v.unlink_first(t, dir, kind);
    if s.len() > 0 {
        let e = s[0];
        assert(v.edges.contains_key(e));
        assert(v.edge_ok(e));
        assert(s.contains(e));
        crate::laws::unlink_wf(v, e);
        crate::laws::detach_wf(v, e);
        crate::laws::only_member_goes(v, t, dir, kind, e);
        crate::steps::unlink_keeps_nodes(v, e);
        let d = v.detach(e);
        assert forall|n: NodeId| #[trigger]
            w.nodes.contains_key(n) && n != t implies w.body_ok(n) by {
            assert(v.nodes.contains_key(n));
            if kind == EdgeKind::Waiting {
                let b = d.nodes[t].body;
                assert(d == v.with_body(t, b));
                crate::invariants::with_body_keeps_bodies(v, t, b, n);
            }
            assert(d.nodes.contains_key(n));
            crate::invariants::cut_keeps_bodies(d, e, n);
        }
        crate::laws::root_table_stays(v, w, t);
        let x = v.edges[e];
        assert forall|d: Dir, k: EdgeKind| !(d == dir && k == kind) implies #[trigger] w.list(
            t,
            d,
            k,
        ) == v.list(t, d, k) by {
            assert(x.src.kind() != x.dst.kind());
        }
    }
}

/// Beginning a deletion keeps every invariant.
pub proof fn deleting_keeps_invariants(v: GraphView, id: NodeId)
    requires
        v.wf(),
        v.inv(),
    ensures
        v.deleted(id).wf(),
        v.deleted(id).inv(),
{
    deleting_keeps_the_tree(v, id);
    deleting_keeps_bodies(v, id);
}

/// Following owners does not pass through a node that owns nothing.
proof fn reaches_without(v: GraphView, w: GraphView, id: NodeId, x: NodeId, n: nat)
    requires
        v.wf(),
        v.tree_inv(),
        v.reaches(x, n),
        x != id,
        id != v.root_id ==> w.root_id == v.root_id,
        v.list(id, Dir::Out, EdgeKind::Owns).len() == 0,
        forall|m: NodeId| #[trigger]
            v.nodes.contains_key(m) && m != id ==> w.nodes.contains_key(m) && w.nodes[m].owner
                == v.nodes[m].owner && w.dying(m) == v.dying(m),
    ensures
        w.reaches(x, n),
    decreases n,
{
    if !v.root_id.is_null() && x == v.root_id {
    } else {
        assert(v.nodes.contains_key(x));
        if !v.nodes[x].owner.is_null() {
            owner_is_not_childless(v, id, x);
            reaches_without(v, w, id, v.nodes[x].owner, (n - 1) as nat);
        }
    }
}

/// The owner of a node owns something.
proof fn owner_is_not_childless(v: GraphView, id: NodeId, x: NodeId)
    requires
        v.wf(),
        v.tree_inv(),
        v.live(x),
        !v.nodes[x].owner.is_null(),
        v.list(id, Dir::Out, EdgeKind::Owns).len() == 0,
    ensures
        v.nodes[x].owner != id,
{
    crate::id::node_id_parts(NodeId(0));
    assert(v.nodes.contains_key(x));
    assert(v.owned_ok(x));
    assert(!v.dying(x) && x != v.root_id);
    let key: ListKey = (x, Dir::In, EdgeKind::Owns);
    assert(v.lists.contains_key(key));
    assert(v.list_ok(key));
    let e = v.lists[key][0];
    assert(v.edges.contains_key(e));
    assert(v.edge_ok(e));
}

/// Releasing a node with no edges keeps the tree and the reaper's list.
pub proof fn freeing_keeps_the_tree(v: GraphView, id: NodeId)
    requires
        v.wf(),
        v.tree_inv(),
        v.live(id),
        id == v.dying_head,
        forall|d: Dir, k: EdgeKind| #[trigger] v.list(id, d, k).len() == 0,
    ensures
        v.freed(id).wf(),
        v.freed(id).tree_inv(),
{
    let w = v.freed(id);
    let u = v.without_node(id);
    crate::reap::without_node_wf(v, id);
    crate::id::node_id_parts(NodeId(0));
    assert(w.wf()) by {
        assert forall|e: u32| #[trigger] w.edges.contains_key(e) implies w.edge_ok(e) by {
            assert(u.edges.contains_key(e));
            assert(u.edge_ok(e));
        }
        assert forall|key: ListKey| #[trigger] w.lists.contains_key(key) implies w.list_ok(
            key,
        ) by {
            assert(u.lists.contains_key(key));
            assert(u.list_ok(key));
        }
        assert forall|key: ListKey| #[trigger]
            w.lists.contains_key(key) <==> w.nodes.contains_key(key.0) by {
            assert(u.lists.contains_key(key) <==> u.nodes.contains_key(key.0));
        }
        assert forall|m: NodeId| #[trigger] w.nodes.contains_key(m) implies w.node_ok(m) by {
            assert(u.nodes.contains_key(m));
            assert(u.node_ok(m));
        }
    }
    let none = v.list(id, Dir::Out, EdgeKind::Owns);
    assert(none.len() == 0);
    assert forall|n: NodeId| #[trigger] w.nodes.contains_key(n) implies w.owned_ok(n) by {
        assert(v.nodes.contains_key(n));
        assert(v.owned_ok(n));
        let key: ListKey = (n, Dir::In, EdgeKind::Owns);
        assert(v.lists.contains_key(key));
        assert(v.list_ok(key));
        assert(w.lists[key] == v.lists[key]);
        if !v.dying(n) && n != v.root_id {
            let k = choose|k: nat| v.reaches(v.nodes[n].owner, k);
            let ow = v.lists[key];
            assert(v.edges.contains_key(ow[0]));
            assert(v.edge_ok(ow[0]));
            assert(v.node_ok(v.edges[ow[0]].src));
            owner_is_not_childless(v, id, n);
            reaches_without(v, w, id, v.nodes[n].owner, k);
            assert(n != w.root_id) by {
                assert(v.node_ok(n));
            }
        }
    }
    let s = choose|s: Seq<NodeId>| v.reaper_list(s);
    assert(v.reaper_list(s));
    assert(v.node_ok(id)) by {
        assert(v.nodes.contains_key(id));
    }
    assert(s.len() > 0 && s[0] == id);
    let t = s.drop_first();
    assert forall|i: int| 0 <= i < t.len() implies w.live(#[trigger] t[i]) && w.dying(t[i]) by {
        assert(t[i] == s[i + 1]);
        assert(v.live(s[i + 1]) && v.dying(s[i + 1]));
        assert(s[i + 1] != s[0]);
    }
    assert forall|i: int| 0 <= i < t.len() implies (#[trigger] w.nodes[t[i]]).next_dying == if i
        + 1 < t.len() {
        t[i + 1]
    } else {
        NodeId(0)
    } by {
        assert(t[i] == s[i + 1]);
        assert(s[i + 1] != s[0]);
        assert(v.nodes[s[i + 1]].next_dying == w.nodes[t[i]].next_dying);
    }
    assert forall|n: NodeId| #[trigger] w.nodes.contains_key(n) && w.dying(n) implies t.contains(
        n,
    ) by {
        assert(v.nodes.contains_key(n));
        assert(s.contains(n));
        let i = s.index_of(n);
        assert(s[i] == n && i != 0);
        assert(t[i - 1] == n);
    }
    assert(v.nodes[s[0]].next_dying == if t.len() > 0 {
        t[0]
    } else {
        NodeId(0)
    });
    assert(t.no_duplicates());
    assert(w.reaper_list(t));
    assert forall|n: NodeId| #[trigger]
        w.nodes.contains_key(n) && (w.dying(n) || n == w.root_id) implies w.nodes[n].owner
        == NodeId(0) by {
        assert(v.nodes.contains_key(n));
        assert(v.node_ok(n));
    }
}

/// Releasing a node with no edges bears on no other body.
pub proof fn freeing_keeps_bodies(v: GraphView, id: NodeId)
    requires
        v.wf(),
        v.all_bodies(),
        v.live(id),
        forall|d: Dir, k: EdgeKind| #[trigger] v.list(id, d, k).len() == 0,
    ensures
        v.freed(id).all_bodies(),
{
    let w = v.freed(id);
    crate::reap::without_node_wf(v, id);
    assert forall|n: NodeId| #[trigger] w.nodes.contains_key(n) implies w.body_ok(n) by {
        assert(v.nodes.contains_key(n));
        assert(v.node_ok(n) && v.body_ok(n));
        lists_of(v, n);
        if n.kind() == Some(NodeKind::Thread) {
            let key: ListKey = (n, Dir::Out, EdgeKind::InSpace);
            assert(v.lists.contains_key(key));
            assert(v.list_ok(key));
            let s = v.lists[key];
            if s.len() > 0 {
                assert(v.edges.contains_key(s[0]));
            }
            assert(w.root_table(n) == v.root_table(n));
        }
        crate::invariants::body_frame(v, w, n);
    }
}

impl GraphView {
    /// No cpu is going away with threads still on its queue.
    pub open spec fn queues_settled(self) -> bool {
        self.live(self.dying_head) ==> self.list(
            self.dying_head,
            Dir::Out,
            EdgeKind::Ready,
        ).len() == 0
    }
}

/// The child the reaper turns to next is not already going away.
pub proof fn reaping_can_progress(v: GraphView)
    requires
        v.wf(),
        v.tree_inv(),
        !v.dying_head.is_null(),
    ensures
        v.live(v.dying_head),
        v.dying(v.dying_head),
        v.can_progress(),
        v.list(v.dying_head, Dir::In, EdgeKind::Owns).len() == 0,
        ({
            let out = v.list(v.dying_head, Dir::Out, EdgeKind::Owns);
            out.len() > 0 ==> v.live(v.edges[out[0]].dst) && v.nodes[v.edges[out[0]].dst].owner
                == v.dying_head && v.edges[out[0]].dst != v.root_id
        }),
{
    let id = v.dying_head;
    crate::id::node_id_parts(NodeId(0));
    let s = choose|s: Seq<NodeId>| v.reaper_list(s);
    assert(v.reaper_list(s));
    assert(s.len() > 0);
    assert(v.live(s[0]) && v.dying(s[0]));
    assert(v.nodes.contains_key(id));
    assert(v.owned_ok(id));
    let key: ListKey = (id, Dir::Out, EdgeKind::Owns);
    assert(v.lists.contains_key(key));
    assert(v.list_ok(key));
    let out = v.lists[key];
    if out.len() > 0 {
        let e = out[0];
        assert(v.edges.contains_key(e));
        assert(v.edge_ok(e));
        let c = v.edges[e].dst;
        assert(v.nodes.contains_key(c));
        assert(v.owned_ok(c));
        let kin: ListKey = (c, Dir::In, EdgeKind::Owns);
        assert(v.lists.contains_key(kin));
        assert(v.list_ok(kin));
        let j = v.lists[kin].index_of(e);
        assert(v.lists[kin][j] == e);
    }
}

/// One step of the reaper keeps the tree.
pub proof fn reaping_keeps_the_tree(v: GraphView)
    requires
        v.wf(),
        v.tree_inv(),
    ensures
        v.reaped().0.wf(),
        v.reaped().0.tree_inv(),
        !v.dying_head.is_null() ==> v.can_progress(),
{
    let id = v.dying_head;
    if !id.is_null() {
        reaping_can_progress(v);
        let out = v.list(id, Dir::Out, EdgeKind::Owns);
        if out.len() > 0 {
            deleting_keeps_the_tree(v, v.edges[out[0]].dst);
        } else {
            match v.next_list(id) {
                Some((d, k)) => {
                    unlink_first_same_tree(v, id, d, k);
                    same_tree_keeps(v, v.unlink_first(id, d, k));
                },
                None => {
                    assert forall|d: Dir, k: EdgeKind| #[trigger] v.list(id, d, k).len() == 0 by {
                        isolated_lists(v, id, d, k);
                    }
                    freeing_keeps_the_tree(v, id);
                },
            }
        }
    }
}

/// With no list to take from, every list is empty.
proof fn isolated_lists(v: GraphView, id: NodeId, d: Dir, k: EdgeKind)
    requires
        v.next_list(id) is None,
    ensures
        v.list(id, d, k).len() == 0,
{
    match k {
        EdgeKind::Holds => {},
        EdgeKind::InSpace => {},
        EdgeKind::Maps => {},
        EdgeKind::Ready => {},
        EdgeKind::Waiting => {},
        EdgeKind::Named => {},
        EdgeKind::Owns => {},
    }
}

/// One step of the reaper keeps every invariant, unless it is taking apart the
/// run queue of a cpu that is going away.
pub proof fn reaping_keeps_invariants(v: GraphView)
    requires
        v.wf(),
        v.inv(),
        v.queues_settled(),
    ensures
        v.reaped().0.inv(),
{
    let id = v.dying_head;
    reaping_keeps_the_tree(v);
    if !id.is_null() {
        reaping_can_progress(v);
        let out = v.list(id, Dir::Out, EdgeKind::Owns);
        if out.len() > 0 {
            deleting_keeps_bodies(v, v.edges[out[0]].dst);
        } else {
            match v.next_list(id) {
                Some((d, k)) => {
                    let key: ListKey = (id, d, k);
                    assert(v.lists.contains_key(key));
                    assert(v.list_ok(key));
                    assert(v.lists[key].len() > 0);
                    let e = v.lists[key][0];
                    assert(v.edges.contains_key(e));
                    assert(v.edge_ok(e));
                    match k {
                        EdgeKind::Holds => {
                            crate::laws::revoking_keeps_invariants(v, e);
                        },
                        EdgeKind::InSpace => {
                            crate::laws::unbinding_a_space_keeps_invariants(v, e);
                        },
                        EdgeKind::Maps => {
                            crate::laws::unmapping_keeps_invariants(v, e);
                        },
                        EdgeKind::Waiting => {
                            crate::laws::removing_a_wait_keeps_invariants(v, e);
                        },
                        EdgeKind::Named => {
                            crate::laws::removing_a_name_keeps_invariants(v, e);
                        },
                        EdgeKind::Ready => {
                            // Not an out-list, by assumption; and a thread that
                            // is going away is on no queue.
                            assert(v.nodes.contains_key(id));
                            assert(v.node_ok(id) && v.body_ok(id));
                        },
                        EdgeKind::Owns => {},
                    }
                },
                None => {
                    assert forall|d: Dir, k: EdgeKind| #[trigger] v.list(id, d, k).len() == 0 by {
                        isolated_lists(v, id, d, k);
                    }
                    freeing_keeps_bodies(v, id);
                },
            }
        }
    }
}

// ------------------------------------------------------- what is destroyed ---

impl GraphView {
    /// Following owners from `id` comes to the root through nodes none of
    /// which is going away.
    pub open spec fn rooted(self, id: NodeId, n: nat) -> bool
        decreases n,
    {
        &&& self.live(id)
        &&& !self.dying(id)
        &&& id == self.root_id || n > 0 && !self.nodes[id].owner.is_null() && self.rooted(
            self.nodes[id].owner,
            (n - 1) as nat,
        )
    }

    pub open spec fn in_tree(self, id: NodeId) -> bool {
        exists|n: nat| self.rooted(id, n)
    }

    /// No cpu is going away, nor anything a cpu hangs off.
    pub open spec fn cpus_in_tree(self) -> bool {
        forall|n: NodeId| #[trigger]
            self.nodes.contains_key(n) && n.kind() == Some(NodeKind::Cpu) ==> self.in_tree(n)
    }

    /// How a graph stands to an earlier one when only the reaper has run:
    /// nothing is new, nothing has been restored, and whatever hangs off the
    /// root still does.
    pub open spec fn reaped_from(self, o: GraphView) -> bool {
        &&& forall|n: NodeId| #[trigger]
            self.nodes.contains_key(n) ==> o.nodes.contains_key(n) && (!self.dying(n) ==> !o.dying(
                n,
            ) && self.nodes[n].owner == o.nodes[n].owner)
        &&& forall|n: NodeId, k: nat| #[trigger] o.rooted(n, k) ==> self.rooted(n, k)
        &&& self.root_id == o.root_id || self.root_id == NodeId(0)
    }
}

/// A node whose owner is going away is not in the tree, so a step on it
/// disturbs nothing that is.
pub proof fn rooted_stays(v: GraphView, w: GraphView, x: NodeId, n: NodeId, k: nat)
    requires
        v.rooted(n, k),
        v.dying(x) || !v.nodes[x].owner.is_null() && v.dying(v.nodes[x].owner) && x != v.root_id,
        x != v.root_id ==> w.root_id == v.root_id,
        forall|m: NodeId| #[trigger]
            v.nodes.contains_key(m) && m != x ==> w.nodes.contains_key(m) && w.nodes[m].owner
                == v.nodes[m].owner && w.nodes[m].flags == v.nodes[m].flags,
    ensures
        w.rooted(n, k),
        n != x,
    decreases k,
{
    if n == x {
        if k > 0 {
            assert(v.nodes[x].owner == v.nodes[n].owner);
            if n != v.root_id {
                assert(v.rooted(v.nodes[n].owner, (k - 1) as nat));
            }
        }
    }
    if n != v.root_id {
        rooted_stays(v, w, x, v.nodes[n].owner, (k - 1) as nat);
    } else if x == v.root_id {
        assert(false);
    }
}

/// One step of the reaper destroys nothing that hangs off the root.
pub proof fn reaping_spares_the_tree(v: GraphView)
    requires
        v.wf(),
        v.tree_inv(),
    ensures
        v.reaped().0.reaped_from(v),
{
    let id = v.dying_head;
    let w = v.reaped().0;
    if !id.is_null() {
        reaping_can_progress(v);
        let out = v.list(id, Dir::Out, EdgeKind::Owns);
        if out.len() > 0 {
            let c = v.edges[out[0]].dst;
            deleting_keeps_the_tree(v, c);
            assert forall|m: NodeId| #[trigger] v.nodes.contains_key(m) implies
                w.nodes.contains_key(m) by {
                same_dom(v, w, m);
            }
            assert forall|n: NodeId, k: nat| #[trigger] v.rooted(n, k) implies w.rooted(n, k) by {
                rooted_stays(v, w, c, n, k);
            }
            assert forall|n: NodeId| #[trigger] w.nodes.contains_key(n) implies
                v.nodes.contains_key(n) && (!w.dying(n) ==> !v.dying(n) && w.nodes[n].owner
                == v.nodes[n].owner) by {
                same_dom(v, w, n);
            }
        } else {
            match v.next_list(id) {
                Some((d, k)) => {
                    unlink_first_same_tree(v, id, d, k);
                    assert forall|m: NodeId| #[trigger] v.nodes.contains_key(m) implies
                        w.nodes.contains_key(m) by {
                        same_dom(v, w, m);
                    }
                    assert forall|n: NodeId, k: nat| #[trigger] v.rooted(n, k) implies w.rooted(
                        n,
                        k,
                    ) by {
                        rooted_stays(v, w, id, n, k);
                    }
                    assert forall|n: NodeId| #[trigger] w.nodes.contains_key(n) implies
                        v.nodes.contains_key(n) && (!w.dying(n) ==> !v.dying(n)
                        && w.nodes[n].owner == v.nodes[n].owner) by {
                        same_dom(v, w, n);
                    }
                },
                None => {
                    assert forall|n: NodeId, k: nat| #[trigger] v.rooted(n, k) implies w.rooted(
                        n,
                        k,
                    ) by {
                        rooted_stays(v, w, id, n, k);
                    }
                },
            }
        }
    }
}

/// Running the reaper longer does not change what it stands for.
pub proof fn reaped_from_is_transitive(a: GraphView, b: GraphView, c: GraphView)
    requires
        b.reaped_from(a),
        c.reaped_from(b),
    ensures
        c.reaped_from(a),
{
    assert forall|n: NodeId| #[trigger] c.nodes.contains_key(n) implies a.nodes.contains_key(n)
        && (!c.dying(n) ==> !a.dying(n) && c.nodes[n].owner == a.nodes[n].owner) by {
        assert(b.nodes.contains_key(n));
    }
    assert forall|n: NodeId, k: nat| #[trigger] a.rooted(n, k) implies c.rooted(n, k) by {
        assert(b.rooted(n, k));
    }
}

/// With nothing pending, every live node hangs off the root.
pub proof fn nothing_pending_means_all_in_tree(v: GraphView, id: NodeId)
    requires
        v.wf(),
        v.tree_inv(),
        v.dying_head.is_null(),
        v.live(id),
    ensures
        !v.dying(id),
        v.in_tree(id),
{
    crate::id::node_id_parts(NodeId(0));
    let s = choose|s: Seq<NodeId>| v.reaper_list(s);
    assert(v.reaper_list(s));
    if s.len() > 0 {
        assert(v.live(s[0]));
        assert(v.nodes.contains_key(s[0]));
        assert(v.node_ok(s[0]));
    }
    assert forall|n: NodeId| #[trigger] v.nodes.contains_key(n) implies !v.dying(n) by {
        if v.dying(n) {
            assert(s.contains(n));
        }
    }
    assert(v.nodes.contains_key(id));
    assert(v.owned_ok(id));
    if id == v.root_id {
        assert(v.rooted(id, 0));
    } else {
        let n = choose|n: nat| v.reaches(v.nodes[id].owner, n);
        reaches_means_rooted(v, v.nodes[id].owner, n);
        let k = choose|k: nat| v.rooted(v.nodes[id].owner, k);
        let ow = v.list(id, Dir::In, EdgeKind::Owns);
        let key: ListKey = (id, Dir::In, EdgeKind::Owns);
        assert(v.lists.contains_key(key));
        assert(v.list_ok(key));
        assert(v.edges.contains_key(ow[0]));
        assert(v.edge_ok(ow[0]));
        assert(v.node_ok(v.edges[ow[0]].src));
        assert(v.rooted(id, k + 1));
    }
}

proof fn reaches_means_rooted(v: GraphView, x: NodeId, n: nat)
    requires
        v.reaches(x, n),
        v.roots_ok(),
        forall|m: NodeId| #[trigger] v.nodes.contains_key(m) ==> !v.dying(m),
    ensures
        v.in_tree(x),
    decreases n,
{
    if !v.root_id.is_null() && x == v.root_id {
        assert(v.nodes.contains_key(x));
        assert(v.rooted(x, 0));
    } else {
        assert(v.nodes.contains_key(x));
        reaches_means_rooted(v, v.nodes[x].owner, (n - 1) as nat);
        let k = choose|k: nat| v.rooted(v.nodes[x].owner, k);
        assert(v.rooted(x, k + 1));
    }
}

/// A node that is in the tree now was in it before the reaper ran.
proof fn in_tree_before(a: GraphView, b: GraphView, x: NodeId, n: nat)
    requires
        b.reaped_from(a),
        b.rooted(x, n),
        !b.root_id.is_null(),
    ensures
        a.rooted(x, n),
    decreases n,
{
    crate::id::node_id_parts(NodeId(0));
    assert(b.nodes.contains_key(x));
    if x != b.root_id {
        in_tree_before(a, b, b.nodes[x].owner, (n - 1) as nat);
    }
}

/// Running the reaper until nothing is pending destroys exactly what did not
/// hang off the root: every other node survives, and none of these do.
pub proof fn reaping_destroys_exactly_the_detached(a: GraphView, b: GraphView, id: NodeId)
    requires
        b.wf(),
        b.tree_inv(),
        b.reaped_from(a),
        b.dying_head.is_null(),
    ensures
        b.live(id) <==> a.in_tree(id),
{
    if b.live(id) {
        nothing_pending_means_all_in_tree(b, id);
        let n = choose|n: nat| b.rooted(id, n);
        rooted_has_root(b, id, n);
        in_tree_before(a, b, id, n);
    }
    if a.in_tree(id) {
        let n = choose|n: nat| a.rooted(id, n);
        assert(b.rooted(id, n));
    }
}

proof fn rooted_has_root(v: GraphView, x: NodeId, n: nat)
    requires
        v.rooted(x, n),
        v.wf(),
        v.roots_ok(),
    ensures
        !v.root_id.is_null(),
    decreases n,
{
    if x == v.root_id {
        assert(v.nodes.contains_key(x));
        assert(v.node_ok(x));
    } else {
        rooted_has_root(v, v.nodes[x].owner, (n - 1) as nat);
    }
}

/// As long as every cpu stays, the reaper takes no run queue apart.
pub proof fn no_cpu_is_reaped(v: GraphView)
    requires
        v.wf(),
        v.tree_inv(),
        v.cpus_in_tree(),
    ensures
        v.queues_settled(),
{
    let id = v.dying_head;
    if v.live(id) {
        assert(v.nodes.contains_key(id));
        assert(v.node_ok(id));
        reaping_can_progress(v);
        let key: ListKey = (id, Dir::Out, EdgeKind::Ready);
        assert(v.lists.contains_key(key));
        assert(v.list_ok(key));
        if v.lists[key].len() > 0 {
            let e = v.lists[key][0];
            assert(v.edges.contains_key(e));
            assert(v.edge_ok(e));
            let n = choose|n: nat| v.rooted(id, n);
            assert(v.rooted(id, n));
        }
    }
}

/// A cpu that hung off the root still does.
pub proof fn cpus_stay(v: GraphView, w: GraphView)
    requires
        w.reaped_from(v),
        v.cpus_in_tree(),
    ensures
        w.cpus_in_tree(),
{
    assert forall|n: NodeId| #[trigger]
        w.nodes.contains_key(n) && n.kind() == Some(NodeKind::Cpu) implies w.in_tree(n) by {
        assert(v.nodes.contains_key(n));
        let k = choose|k: nat| v.rooted(n, k);
        assert(w.rooted(n, k));
    }
}

impl Graph {
    /// Run the reaper to completion, and say how many nodes it freed.
    /// Convenience for a quiet kernel; the kernel proper calls `reap_step`
    /// from a thread.
    pub fn reap_all(&mut self) -> (r: u32)
        requires
            old(self).wf(),
            old(self)@.tree_inv(),
            old(self).seq <= u64::MAX - 0x1_0000,
        ensures
            final(self).wf(),
            final(self)@.tree_inv(),
            final(self)@.dying_head.is_null(),
            forall|id: NodeId| #[trigger] final(self)@.live(id) <==> old(self)@.in_tree(id),
            forall|e: u32| #[trigger]
                final(self)@.edges.contains_key(e) <==> old(self)@.edges.contains_key(e)
                    && old(self)@.in_tree(old(self)@.edges[e].src) && old(self)@.in_tree(
                    old(self)@.edges[e].dst,
                ),
            final(self)@.trimmed(old(self)@),
            r == old(self).live_nodes_total() - final(self).live_nodes_total(),
            exists|n: nat| #[trigger]
                old(self)@.reaped_times(n) == final(self)@ && r == old(self)@.freed_in(n),
            old(self)@.inv() && old(self)@.cpus_in_tree() ==> final(self)@.inv(),
            final(self)@.since(old(self)@),
    {
        let ghost g0 = *self;
        let ghost mut steps: nat = 0;
        let mut freed: u32 = 0;
        let ghost mut fuel: int = self.edges.live + self.live_nodes_total();
        proof {
            crate::arena::count_live_bound(self.edges.books().gens);
            crate::reap::few_nodes(*self);
            assert(self@.reaped_from(self@));
        }
        loop
            invariant
                self.wf(),
                self@.tree_inv(),
                self@.reaped_from(g0@),
                self@ == g0@.reaped_times(steps),
                freed == g0@.freed_in(steps),
                self@.since(g0@),
                g0 == *old(self),
                freed == g0.live_nodes_total() - self.live_nodes_total(),
                g0@.inv() && g0@.cpus_in_tree() ==> self@.inv() && self@.cpus_in_tree(),
                g0.live_nodes_total() <= 921,
                fuel == self.edges.live + self.live_nodes_total(),
                0 <= fuel <= 4096 + 921,
                self.seq + 4 * fuel + 4 <= u64::MAX,
            ensures
                self.wf(),
                self@.tree_inv(),
                self@.reaped_from(g0@),
                self@ == g0@.reaped_times(steps),
                freed == g0@.freed_in(steps),
                self@.since(g0@),
                self@.dying_head.is_null(),
                freed == g0.live_nodes_total() - self.live_nodes_total(),
                g0@.inv() && g0@.cpus_in_tree() ==> self@.inv(),
            decreases fuel,
        {
            let ghost before = self@;
            proof {
                reaping_keeps_the_tree(before);
                reaping_spares_the_tree(before);
                if g0@.inv() && g0@.cpus_in_tree() {
                    no_cpu_is_reaped(before);
                    reaping_keeps_invariants(before);
                    cpus_stay(before, before.reaped().0);
                }
            }
            let step = self.reap_step();
            proof {
                reaped_from_is_transitive(g0@, before, self@);
                steps = steps + 1;
            }
            match step {
                ReapStep::Idle => {
                    break;
                },
                ReapStep::Freed { .. } => {
                    freed = freed + 1;
                },
                _ => {},
            }
            proof {
                fuel = self.edges.live + self.live_nodes_total();
            }
        }
        proof {
            assert forall|id: NodeId| #[trigger] self@.live(id) <==> g0@.in_tree(id) by {
                reaping_destroys_exactly_the_detached(g0@, self@, id);
            }
            crate::laws_delete::the_reaper_only_takes_away(g0@, steps);
            crate::laws_delete::edges_left(g0@, self@);
        }
        freed
    }
}

} // verus!

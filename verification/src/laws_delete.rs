//! What a deletion comes to once the reaper is done: the nodes owned from the
//! deleted one down are gone, and nothing else is, and the rest of the graph
//! is as it was but for the edges that led there.

use vstd::prelude::*;

use crate::body::Rights;
use crate::edge::{Dir, EdgeAttr};
use crate::graph::GraphError;
use crate::id::{EdgeKind, NodeId, NodeKind};
use crate::limits::HANDLE_SLOTS;
use crate::view::{GraphView, ListKey};

verus! {

/// One edge comes before another in a list.
pub open spec fn before(s: Seq<u32>, x: u32, y: u32) -> bool {
    exists|i: int, j: int| 0 <= i < j < s.len() && #[trigger] s[i] == x && #[trigger] s[j] == y
}

impl GraphView {
    /// None of the node's edges has gone since `o`.
    pub open spec fn untouched(self, o: GraphView, n: NodeId) -> bool {
        forall|e: u32| #[trigger]
            o.edges.contains_key(e) && (o.edges[e].src == n || o.edges[e].dst == n)
                ==> self.edges.contains_key(e)
    }

    /// How a graph stands to an earlier one when edges and nodes have gone and
    /// nothing else was done: what is left is as it was and in the order it
    /// was in, and a node is as it was unless it lost an edge or is going away.
    pub open spec fn trimmed(self, o: GraphView) -> bool {
        &&& forall|n: NodeId| #[trigger]
            self.nodes.contains_key(n) ==> o.nodes.contains_key(n) && (!self.dying(n) ==> !o.dying(
                n,
            ))
        &&& forall|e: u32| #[trigger]
            self.edges.contains_key(e) ==> o.edges.contains_key(e) && self.edges[e] == o.edges[e]
        &&& forall|key: ListKey, x: u32, y: u32|
            self.nodes.contains_key(key.0) ==> (#[trigger] before(self.lists[key], x, y) <==> before(
                o.lists[key],
                x,
                y,
            ) && self.edges.contains_key(x) && self.edges.contains_key(y))
        &&& forall|n: NodeId| #[trigger]
            self.nodes.contains_key(n) && !self.dying(n) && self.untouched(o, n) ==> self.nodes[n]
                == o.nodes[n]
    }

    /// Every edge that has gone since `o` was an edge of `x`.
    pub open spec fn lost_only(self, o: GraphView, x: NodeId) -> bool {
        forall|e: u32| #[trigger]
            o.edges.contains_key(e) && !self.edges.contains_key(e) ==> o.edges[e].src == x
                || o.edges[e].dst == x
    }

    /// Every edge between nodes that hung off the root in `o` is still there.
    pub open spec fn tree_edges_kept(self, o: GraphView) -> bool {
        forall|e: u32| #[trigger]
            o.edges.contains_key(e) && o.in_tree(o.edges[e].src) && o.in_tree(o.edges[e].dst)
                ==> self.edges.contains_key(e)
    }
}

/// Taking one out of a list leaves the others in their order.
proof fn removal_keeps_order(s: Seq<u32>, e: u32, x: u32, y: u32)
    requires
        s.no_duplicates(),
        s.contains(e),
    ensures
        before(crate::slab::without(s, e), x, y) <==> before(s, x, y) && x != e && y != e,
{
    let k = s.index_of(e);
    let t = s.remove(k);
    assert(s[k] == e);
    if before(t, x, y) {
        let (i, j) = choose|i: int, j: int|
            0 <= i < j < t.len() && #[trigger] t[i] == x && #[trigger] t[j] == y;
        let a = if i < k {
            i
        } else {
            i + 1
        };
        let b = if j < k {
            j
        } else {
            j + 1
        };
        assert(s[a] == x && s[b] == y);
    }
    if before(s, x, y) && x != e && y != e {
        let (i, j) = choose|i: int, j: int|
            0 <= i < j < s.len() && #[trigger] s[i] == x && #[trigger] s[j] == y;
        let a = if i < k {
            i
        } else {
            i - 1
        };
        let b = if j < k {
            j
        } else {
            j - 1
        };
        assert(t[a] == x && t[b] == y);
    }
}

proof fn trimmed_is_transitive(a: GraphView, b: GraphView, c: GraphView)
    requires
        b.trimmed(a),
        c.trimmed(b),
    ensures
        c.trimmed(a),
{
    assert forall|key: ListKey, x: u32, y: u32| c.nodes.contains_key(key.0) implies (
    #[trigger] before(c.lists[key], x, y) <==> before(a.lists[key], x, y) && c.edges.contains_key(x)
        && c.edges.contains_key(y)) by {
        assert(b.nodes.contains_key(key.0));
        assert(before(c.lists[key], x, y) <==> before(b.lists[key], x, y) && c.edges.contains_key(x)
            && c.edges.contains_key(y));
        assert(before(b.lists[key], x, y) <==> before(a.lists[key], x, y) && b.edges.contains_key(x)
            && b.edges.contains_key(y));
    }
    assert forall|e: u32| #[trigger] c.edges.contains_key(e) implies a.edges.contains_key(e)
        && c.edges[e] == a.edges[e] by {
        assert(b.edges.contains_key(e));
    }
    assert forall|n: NodeId| #[trigger] c.nodes.contains_key(n) && !c.dying(n) && c.untouched(
        a,
        n,
    ) implies c.nodes[n] == a.nodes[n] by {
        assert(b.nodes.contains_key(n));
        assert forall|e: u32| #[trigger]
            a.edges.contains_key(e) && (a.edges[e].src == n || a.edges[e].dst
                == n) implies b.edges.contains_key(e) by {
            assert(c.edges.contains_key(e));
        }
        assert(b.untouched(a, n));
        assert forall|e: u32| #[trigger]
            b.edges.contains_key(e) && (b.edges[e].src == n || b.edges[e].dst
                == n) implies c.edges.contains_key(e) by {
            assert(a.edges.contains_key(e));
        }
        assert(c.untouched(b, n));
    }
    assert forall|n: NodeId| #[trigger] c.nodes.contains_key(n) implies a.nodes.contains_key(n) && (
    !c.dying(n) ==> !a.dying(n)) by {
        assert(b.nodes.contains_key(n));
    }
}

proof fn lost_only_is_transitive(a: GraphView, b: GraphView, c: GraphView, x: NodeId)
    requires
        b.trimmed(a),
        b.lost_only(a, x),
        c.lost_only(b, x),
    ensures
        c.lost_only(a, x),
{
    assert forall|e: u32| #[trigger]
        a.edges.contains_key(e) && !c.edges.contains_key(e) implies a.edges[e].src == x
        || a.edges[e].dst == x by {
        if b.edges.contains_key(e) {
            assert(b.edges[e] == a.edges[e]);
        }
    }
}

/// Removing the first edge of a list, if there is one, trims the graph.
proof fn unlinking_trims(v: GraphView, id: NodeId, dir: Dir, kind: EdgeKind)
    requires
        v.wf(),
        v.live(id),
    ensures
        v.unlink_first(id, dir, kind).wf(),
        v.unlink_first(id, dir, kind).trimmed(v),
        v.unlink_first(id, dir, kind).lost_only(v, id),
{
    let w = v.unlink_first(id, dir, kind);
    let first: ListKey = (id, dir, kind);
    assert(v.lists.contains_key(first));
    assert(v.list_ok(first));
    assert forall|key: ListKey, x: u32, y: u32|
        v.nodes.contains_key(key.0) && #[trigger] before(
            v.lists[key],
            x,
            y,
        ) implies v.edges.contains_key(x) && v.edges.contains_key(y) by {
        assert(v.lists.contains_key(key));
        assert(v.list_ok(key));
        let s = v.lists[key];
        let (i, j) = choose|i: int, j: int|
            0 <= i < j < s.len() && #[trigger] s[i] == x && #[trigger] s[j] == y;
        assert(v.edges.contains_key(s[i]) && v.edges.contains_key(s[j]));
    }
    if v.lists[first].len() > 0 {
        let e = v.lists[first][0];
        assert(v.edges.contains_key(e));
        assert(v.edge_ok(e));
        let x0 = v.edges[e];
        assert(x0.endpoint(dir) == id);
        crate::laws::unlink_wf(v, e);
        crate::steps::unlink_keeps_nodes(v, e);
        let (out, into): (ListKey, ListKey) = (
            (x0.src, Dir::Out, x0.kind),
            (x0.dst, Dir::In, x0.kind),
        );
        assert forall|key: ListKey, x: u32, y: u32| w.nodes.contains_key(key.0) implies (
        #[trigger] before(w.lists[key], x, y) <==> before(v.lists[key], x, y)
            && w.edges.contains_key(x) && w.edges.contains_key(y)) by {
            assert(v.nodes.contains_key(key.0));
            assert(v.lists.contains_key(key));
            assert(v.list_ok(key));
            let s = v.lists[key];
            if key == out || key == into {
                removal_keeps_order(s, e, x, y);
                assert(w.lists[key] == crate::slab::without(s, e));
            } else {
                assert(w.lists[key] == s);
                if before(s, x, y) {
                    let (i, j) = choose|i: int, j: int|
                        0 <= i < j < s.len() && #[trigger] s[i] == x && #[trigger] s[j] == y;
                    assert(v.edges[s[i]].kind == key.2 && v.edges[s[i]].endpoint(key.1) == key.0);
                    assert(v.edges[s[j]].kind == key.2 && v.edges[s[j]].endpoint(key.1) == key.0);
                    assert(x != e && y != e);
                }
            }
        }
        assert forall|n: NodeId| #[trigger] w.nodes.contains_key(n) && !w.dying(n) && w.untouched(
            v,
            n,
        ) implies w.nodes[n] == v.nodes[n] by {
            assert(v.edges.contains_key(e) && !w.edges.contains_key(e));
            assert(n != x0.src && n != x0.dst);
        }
    }
}

/// Changing a node that is going away trims the graph.
proof fn dying_nodes_change_freely(v: GraphView, w: GraphView, id: NodeId)
    requires
        v.wf(),
        v.live(id),
        w.dying(id),
        w.edges == v.edges,
        w.lists == v.lists,
        forall|n: NodeId| #[trigger] w.nodes.contains_key(n) == v.nodes.contains_key(n),
        forall|n: NodeId| n != id ==> #[trigger] w.nodes[n] == v.nodes[n],
    ensures
        w.trimmed(v),
        w.lost_only(v, id),
{
    assert forall|key: ListKey, x: u32, y: u32| w.nodes.contains_key(key.0) implies (
    #[trigger] before(w.lists[key], x, y) <==> before(v.lists[key], x, y) && w.edges.contains_key(x)
        && w.edges.contains_key(y)) by {
        assert(v.lists.contains_key(key));
        assert(v.list_ok(key));
        let s = v.lists[key];
        if before(s, x, y) {
            let (i, j) = choose|i: int, j: int|
                0 <= i < j < s.len() && #[trigger] s[i] == x && #[trigger] s[j] == y;
            assert(v.edges.contains_key(s[i]) && v.edges.contains_key(s[j]));
        }
    }
    assert forall|n: NodeId| #[trigger] w.nodes.contains_key(n) implies v.nodes.contains_key(n) && (
    !w.dying(n) ==> !v.dying(n)) by {
        if n != id {
            assert(w.nodes[n] == v.nodes[n]);
        }
    }
}

/// A graph stands so to itself.
proof fn nothing_trimmed(v: GraphView)
    requires
        v.wf(),
    ensures
        v.trimmed(v),
{
    assert forall|key: ListKey, x: u32, y: u32| v.nodes.contains_key(key.0) implies (
    #[trigger] before(v.lists[key], x, y) <==> before(v.lists[key], x, y) && v.edges.contains_key(x)
        && v.edges.contains_key(y)) by {
        assert(v.lists.contains_key(key));
        assert(v.list_ok(key));
        let s = v.lists[key];
        if before(s, x, y) {
            let (i, j) = choose|i: int, j: int|
                0 <= i < j < s.len() && #[trigger] s[i] == x && #[trigger] s[j] == y;
            assert(v.edges.contains_key(s[i]) && v.edges.contains_key(s[j]));
        }
    }
}

/// Beginning a deletion trims the graph, and takes edges of that node only.
proof fn deleting_trims(v: GraphView, id: NodeId)
    requires
        v.wf(),
        v.live(id),
    ensures
        v.deleted(id).trimmed(v),
        v.deleted(id).lost_only(v, id),
{
    nothing_trimmed(v);
    if !v.dying(id) {
        let a = v.marked(id);
        let f = v.nodes[id].flags;
        assert((f | 1u8) & 1u8 != 0) by (bit_vector);
        assert(a.dying(id));
        dying_nodes_change_freely(v, a, id);
        crate::laws_reap::header_wf(v, id, crate::view::NodeView {
            flags: f | crate::slab::FLAG_DYING,
            ..v.nodes[id]
        });
        unlinking_trims(a, id, Dir::In, EdgeKind::Owns);
        crate::steps::unlink_first_keeps_nodes(a, id, Dir::In, EdgeKind::Owns);
        let b = a.unlink_first(id, Dir::In, EdgeKind::Owns);
        assert(b.nodes.contains_key(id));
        unlinking_trims(b, id, Dir::In, EdgeKind::Ready);
        crate::steps::unlink_first_keeps_nodes(b, id, Dir::In, EdgeKind::Ready);
        let c = b.unlink_first(id, Dir::In, EdgeKind::Ready);
        assert(c.nodes.contains_key(id));
        unlinking_trims(c, id, Dir::Out, EdgeKind::Waiting);
        crate::steps::unlink_first_keeps_nodes(c, id, Dir::Out, EdgeKind::Waiting);
        let d = c.unlink_first(id, Dir::Out, EdgeKind::Waiting);
        assert(d.nodes.contains_key(id));
        let e = d.stopped(id).pending(id);
        assert(b.nodes[id].flags == a.nodes[id].flags);
        assert(c.nodes[id].flags == b.nodes[id].flags);
        assert(d.nodes[id].flags == c.nodes[id].flags);
        assert(e.dying(id));
        dying_nodes_change_freely(d, e, id);
        trimmed_is_transitive(v, a, b);
        trimmed_is_transitive(v, b, c);
        trimmed_is_transitive(v, c, d);
        trimmed_is_transitive(v, d, e);
        lost_only_is_transitive(v, a, b, id);
        lost_only_is_transitive(v, b, c, id);
        lost_only_is_transitive(v, c, d, id);
        lost_only_is_transitive(v, d, e, id);
    }
}

/// One step of the reaper trims the graph, and leaves every edge between nodes
/// that hang off the root.
proof fn reaping_trims(v: GraphView)
    requires
        v.wf(),
        v.tree_inv(),
    ensures
        v.reaped().0.trimmed(v),
        v.reaped().0.tree_edges_kept(v),
{
    nothing_trimmed(v);
    let id = v.dying_head;
    let w = v.reaped().0;
    if !id.is_null() {
        crate::laws_reap::reaping_can_progress(v);
        let out = v.list(id, Dir::Out, EdgeKind::Owns);
        let x = if out.len() > 0 {
            v.edges[out[0]].dst
        } else {
            id
        };
        if out.len() > 0 {
            deleting_trims(v, x);
        } else {
            match v.next_list(id) {
                Some((d, k)) => {
                    unlinking_trims(v, id, d, k);
                },
                None => {
                    assert(w.edges == v.edges);
                    assert forall|key: ListKey| w.nodes.contains_key(key.0) implies
                        #[trigger] w.lists[key] == v.lists[key] by {
                        assert(v.lists.contains_key(key));
                    }
                },
            }
        }
        assert(w.lost_only(v, x));
        assert forall|e: u32| #[trigger]
            v.edges.contains_key(e) && v.in_tree(v.edges[e].src) && v.in_tree(
                v.edges[e].dst,
            ) implies w.edges.contains_key(e) by {
            let (a, b) = (v.edges[e].src, v.edges[e].dst);
            let m = choose|m: nat| v.rooted(a, m);
            let n = choose|n: nat| v.rooted(b, n);
            crate::laws_reap::rooted_stays(v, v, x, a, m);
            crate::laws_reap::rooted_stays(v, v, x, b, n);
        }
    }
}

/// However long the reaper runs, it takes away and does nothing else: the
/// graph is trimmed, every edge between nodes that hang off the root is still
/// there, and the nodes gone are as many as the steps that freed one.
pub proof fn the_reaper_only_takes_away(v: GraphView, n: nat)
    requires
        v.wf(),
        v.tree_inv(),
    ensures
        v.reaped_times(n).wf(),
        v.reaped_times(n).tree_inv(),
        v.reaped_times(n).reaped_from(v),
        v.reaped_times(n).trimmed(v),
        v.reaped_times(n).tree_edges_kept(v),
        v.nodes.dom().difference(v.reaped_times(n).nodes.dom()).finite(),
        v.nodes.dom().difference(v.reaped_times(n).nodes.dom()).len() == v.freed_in(n),
    decreases n,
{
    if n == 0 {
        nothing_trimmed(v);
        assert(v.nodes.dom().difference(v.nodes.dom()) =~= Set::empty());
    } else {
        let m = (n - 1) as nat;
        the_reaper_only_takes_away(v, m);
        let u = v.reaped_times(m);
        let w = v.reaped_times(n);
        crate::laws_reap::reaping_keeps_the_tree(u);
        crate::laws_reap::reaping_spares_the_tree(u);
        crate::laws_reap::reaped_from_is_transitive(v, u, w);
        reaping_trims(u);
        trimmed_is_transitive(v, u, w);
        assert forall|e: u32| #[trigger]
            v.edges.contains_key(e) && v.in_tree(v.edges[e].src) && v.in_tree(
                v.edges[e].dst,
            ) implies w.edges.contains_key(e) by {
            assert(u.edges.contains_key(e));
            assert(u.edges[e] == v.edges[e]);
            let (a, b) = (v.edges[e].src, v.edges[e].dst);
            let i = choose|i: nat| v.rooted(a, i);
            let j = choose|j: nat| v.rooted(b, j);
            assert(u.rooted(a, i) && u.rooted(b, j));
        }
        let (a, b) = (
            v.nodes.dom().difference(u.nodes.dom()),
            v.nodes.dom().difference(w.nodes.dom()),
        );
        if u.reaped().1 is Freed {
            let id = u.dying_head;
            assert(u.nodes.contains_key(id));
            assert(w.nodes.dom() =~= u.nodes.dom().remove(id));
            assert(b =~= a.insert(id));
        } else {
            if !u.dying_head.is_null() {
                crate::laws_reap::reaping_can_progress(u);
                let id = u.dying_head;
                let out = u.list(id, Dir::Out, EdgeKind::Owns);
                if out.len() > 0 {
                    crate::laws_reap::deleting_keeps_the_tree(u, u.edges[out[0]].dst);
                } else if let Some((d, k)) = u.next_list(id) {
                    crate::steps::unlink_first_keeps_nodes(u, id, d, k);
                }
            }
            assert(w.nodes.dom() == u.nodes.dom());
        }
    }
}

/// Once the reaper is done, the edges left are those between nodes that hung
/// off the root.
pub proof fn edges_left(v: GraphView, w: GraphView)
    requires
        w.wf(),
        w.trimmed(v),
        w.tree_edges_kept(v),
        forall|id: NodeId| #[trigger] w.live(id) <==> v.in_tree(id),
    ensures
        forall|e: u32| #[trigger]
            w.edges.contains_key(e) <==> v.edges.contains_key(e) && v.in_tree(v.edges[e].src)
                && v.in_tree(v.edges[e].dst),
{
    assert forall|e: u32| #[trigger] w.edges.contains_key(e) implies v.edges.contains_key(e)
        && v.in_tree(v.edges[e].src) && v.in_tree(v.edges[e].dst) by {
        assert(w.edge_ok(e));
        assert(w.live(w.edges[e].src) && w.live(w.edges[e].dst));
    }
}

/// The reaper comes to rest in one graph, however many steps are asked of it.
pub proof fn the_reaper_rests(v: GraphView, m: nat, n: nat)
    requires
        v.reaped_times(m).dying_head.is_null(),
        v.reaped_times(n).dying_head.is_null(),
    ensures
        v.reaped_times(m) == v.reaped_times(n),
        v.freed_in(m) == v.freed_in(n),
{
    if m < n {
        resting(v, m, n);
    } else {
        resting(v, n, m);
    }
}

proof fn resting(v: GraphView, m: nat, n: nat)
    requires
        v.reaped_times(m).dying_head.is_null(),
        m <= n,
    ensures
        v.reaped_times(m) == v.reaped_times(n),
        v.freed_in(m) == v.freed_in(n),
    decreases n,
{
    if m < n {
        resting(v, m, (n - 1) as nat);
    }
}

// ------------------------------------------------------------ what is owned ---

impl GraphView {
    /// `a` owns `b`.
    pub open spec fn owns(self, a: NodeId, b: NodeId) -> bool {
        exists|e: u32| #[trigger]
            self.edges.contains_key(e) && self.edges[e].kind == EdgeKind::Owns && self.edges[e].src
                == a && self.edges[e].dst == b
    }

    /// Going from `top` along `Owns` edges comes to `id` in at most `n` hops.
    pub open spec fn owned_in(self, top: NodeId, id: NodeId, n: nat) -> bool
        decreases n,
    {
        ||| id == top
        ||| n > 0 && exists|p: NodeId| #[trigger]
            self.owns(p, id) && self.owned_in(top, p, (n - 1) as nat)
    }

    /// Going from `top` along `Owns` edges comes to `id`.
    pub open spec fn owned_from(self, top: NodeId, id: NodeId) -> bool {
        exists|n: nat| self.owned_in(top, id, n)
    }
}

/// The cached owner of a node is the node that owns it.
proof fn the_owner_owns(v: GraphView, id: NodeId)
    requires
        v.wf(),
        v.tree_inv(),
        v.live(id),
        !v.dying(id),
    ensures
        forall|p: NodeId| #[trigger] v.owns(p, id) ==> p == v.nodes[id].owner && id != v.root_id,
        id != v.root_id ==> v.owns(v.nodes[id].owner, id),
{
    let key: ListKey = (id, Dir::In, EdgeKind::Owns);
    assert(v.nodes.contains_key(id));
    assert(v.owned_ok(id));
    assert(v.lists.contains_key(key));
    assert(v.list_ok(key));
    let ow = v.lists[key];
    assert forall|p: NodeId| #[trigger] v.owns(p, id) implies p == v.nodes[id].owner && id
        != v.root_id by {
        let e = choose|e: u32| #[trigger]
            v.edges.contains_key(e) && v.edges[e].kind == EdgeKind::Owns && v.edges[e].src == p
                && v.edges[e].dst == id;
        assert(v.edge_ok(e));
        let j = ow.index_of(e);
        assert(ow[j] == e);
    }
    if id != v.root_id {
        assert(v.edges.contains_key(ow[0]));
    }
}

/// With a deletion begun, a node that was in the tree is in it still or was
/// owned from the deleted node down.
proof fn in_the_tree_or_owned(v: GraphView, top: NodeId, id: NodeId, n: nat)
    requires
        v.wf(),
        v.tree_inv(),
        v.live(top),
        v.rooted(id, n),
    ensures
        v.deleted(top).rooted(id, n) || v.owned_in(top, id, n),
    decreases n,
{
    let w = v.deleted(top);
    crate::laws_reap::deleting_keeps_the_tree(v, top);
    if id != top {
        assert(v.nodes.contains_key(id));
        assert(w.nodes.dom().contains(id));
        if id != v.root_id {
            let p = v.nodes[id].owner;
            in_the_tree_or_owned(v, top, p, (n - 1) as nat);
            the_owner_owns(v, id);
            assert(v.owns(p, id));
        }
    }
}

/// With a deletion begun, nothing owned from the deleted node down is in the
/// tree.
proof fn owned_is_out_of_the_tree(v: GraphView, top: NodeId, id: NodeId, n: nat, k: nat)
    requires
        v.wf(),
        v.tree_inv(),
        v.live(top),
        v.owned_in(top, id, n),
    ensures
        !v.deleted(top).rooted(id, k),
    decreases n,
{
    let w = v.deleted(top);
    crate::laws_reap::deleting_keeps_the_tree(v, top);
    if id != top && w.rooted(id, k) {
        let p = choose|p: NodeId| #[trigger]
            v.owns(p, id) && v.owned_in(top, p, (n - 1) as nat);
        assert(w.nodes.dom().contains(id));
        assert(v.nodes.contains_key(id));
        assert(w.nodes[id].flags == v.nodes[id].flags);
        the_owner_owns(v, id);
        owned_is_out_of_the_tree(v, top, p, (n - 1) as nat, (k - 1) as nat);
    }
}

/// Deleting a node and letting the reaper finish destroys exactly what can be
/// reached from that node along `Owns` edges, and the reaper frees as many
/// nodes as that is.
pub proof fn deleting_destroys_what_is_owned(v: GraphView, top: NodeId, n: nat)
    requires
        v.wf(),
        v.tree_inv(),
        v.dying_head.is_null(),
        v.live(top),
        v.deleted(top).reaped_times(n).dying_head.is_null(),
    ensures
        forall|id: NodeId| #[trigger]
            v.deleted(top).reaped_times(n).live(id) <==> v.live(id) && !v.owned_from(top, id),
        ({
            let gone = v.nodes.dom().filter(|id: NodeId| v.owned_from(top, id));
            gone.finite() && v.deleted(top).freed_in(n) == gone.len()
        }),
{
    let w = v.deleted(top);
    let u = w.reaped_times(n);
    crate::laws_reap::deleting_keeps_the_tree(v, top);
    the_reaper_only_takes_away(w, n);
    assert forall|id: NodeId| #[trigger] u.live(id) <==> v.live(id) && !v.owned_from(top, id) by {
        crate::laws_reap::reaping_destroys_exactly_the_detached(w, u, id);
        if w.in_tree(id) {
            let k = choose|k: nat| w.rooted(id, k);
            assert(w.nodes.dom().contains(id));
            if v.owned_from(top, id) {
                let m = choose|m: nat| v.owned_in(top, id, m);
                owned_is_out_of_the_tree(v, top, id, m, k);
            }
        }
        if v.live(id) && !v.owned_from(top, id) {
            crate::laws_reap::nothing_pending_means_all_in_tree(v, id);
            let k = choose|k: nat| v.rooted(id, k);
            in_the_tree_or_owned(v, top, id, k);
            assert(!v.owned_in(top, id, k));
            assert(w.rooted(id, k));
        }
    }
    let gone = v.nodes.dom().filter(|id: NodeId| v.owned_from(top, id));
    assert(gone =~= w.nodes.dom().difference(u.nodes.dom())) by {
        assert forall|id: NodeId| gone.contains(id) <==> w.nodes.dom().difference(
            u.nodes.dom(),
        ).contains(id) by {
            assert(u.live(id) <==> v.live(id) && !v.owned_from(top, id));
        }
    }
}

// ------------------------------------------------------------------- handles ---

/// However long the reaper works, it keeps every invariant, as long as no cpu
/// goes.
pub proof fn the_reaper_keeps_invariants(v: GraphView, n: nat)
    requires
        v.wf(),
        v.inv(),
        v.tree_inv(),
        v.cpus_in_tree(),
    ensures
        v.reaped_times(n).wf(),
        v.reaped_times(n).inv(),
        v.reaped_times(n).tree_inv(),
        v.reaped_times(n).cpus_in_tree(),
    decreases n,
{
    if n > 0 {
        let u = v.reaped_times((n - 1) as nat);
        the_reaper_keeps_invariants(v, (n - 1) as nat);
        crate::laws_reap::reaping_keeps_the_tree(u);
        crate::laws_reap::reaping_spares_the_tree(u);
        crate::laws_reap::no_cpu_is_reaped(u);
        crate::laws_reap::reaping_keeps_invariants(u);
        crate::laws_reap::cpus_stay(u, u.reaped().0);
    }
}

/// Where nodes have gone and nothing else was done, a handle slot of a process
/// that stays, and that named one of them, is empty: it says so when it is
/// resolved, and it carries no rights.
pub proof fn handles_to_what_is_gone_are_empty(
    v: GraphView,
    w: GraphView,
    p: NodeId,
    slot: u32,
    need: Rights,
)
    requires
        v.wf(),
        v.inv(),
        w.wf(),
        w.inv(),
        w.trimmed(v),
        p.kind() == Some(NodeKind::Process),
        w.live(p),
        0 < slot < HANDLE_SLOTS,
        v.process(p).handles@[slot as int] != 0,
        !w.live(v.edges[v.process(p).handles@[slot as int]].dst),
    ensures
        w.process(p).handles@[slot as int] == 0,
        w.resolution(p, slot, need) == Err::<NodeId, GraphError>(GraphError::EmptySlot(slot)),
        w.slot_rights(p, slot) is None,
{
    let e = v.process(p).handles@[slot as int];
    let x = w.process(p).handles@[slot as int];
    assert(w.nodes.contains_key(p));
    assert(v.nodes.contains_key(p));
    assert(v.node_ok(p) && w.node_ok(p));
    assert(v.body_ok(p) && w.body_ok(p));
    assert(v.edges.contains_key(e));
    if x != 0 {
        assert(w.edges.contains_key(x));
        assert(w.edge_ok(x));
        assert(v.edges.contains_key(x) && w.edges[x] == v.edges[x]);
        assert(v.edge_ok(x));
        let out = v.list(p, Dir::Out, EdgeKind::Holds);
        let j = out.index_of(x);
        assert(out[j] == x);
        assert(v.holds(out[j]).slot == slot);
        assert(v.process(p).handles@[v.holds(out[j]).slot as int] == x);
        assert(x == e);
    }
}

/// So it is once a node has been deleted and the reaper has come to rest: no
/// slot of a process that is left names what was destroyed.
pub proof fn deleting_empties_handles(
    v: GraphView,
    top: NodeId,
    n: nat,
    p: NodeId,
    slot: u32,
    need: Rights,
)
    requires
        v.wf(),
        v.inv(),
        v.tree_inv(),
        v.live(top),
        v.deleted(top).cpus_in_tree(),
        v.deleted(top).reaped_times(n).dying_head.is_null(),
        p.kind() == Some(NodeKind::Process),
        v.deleted(top).reaped_times(n).live(p),
        0 < slot < HANDLE_SLOTS,
        v.process(p).handles@[slot as int] != 0,
        !v.deleted(top).reaped_times(n).live(
            v.edges[v.process(p).handles@[slot as int]].dst,
        ),
    ensures
        ({
            let w = v.deleted(top).reaped_times(n);
            &&& w.resolution(p, slot, need) == Err::<NodeId, GraphError>(
                GraphError::EmptySlot(slot),
            )
            &&& w.slot_rights(p, slot) is None
        }),
{
    let u = v.deleted(top);
    let w = u.reaped_times(n);
    crate::laws_reap::deleting_keeps_the_tree(v, top);
    crate::laws_reap::deleting_keeps_invariants(v, top);
    the_reaper_keeps_invariants(u, n);
    the_reaper_only_takes_away(u, n);
    deleting_trims(v, top);
    trimmed_is_transitive(v, u, w);
    handles_to_what_is_gone_are_empty(v, w, p, slot, need);
}

} // verus!

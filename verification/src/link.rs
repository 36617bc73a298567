//! Making and removing edges.
//!
//! Every relationship the kernel records comes into being in `link_raw` and
//! goes away in `unlink`, which is what keeps the derived indices honest.

use vstd::prelude::*;

use crate::body::Thread;
use crate::edge::{Dir, EdgeAttr, RawEdgeData};
use crate::graph::{edge_view, Cell, Graph, GraphError, Result};
use crate::id::{compatible, EdgeId, EdgeKind, NodeId, NodeKind};
use crate::limits::MAX_EDGES;
use crate::slab::{list_push_tail, nexts, prevs, relinked, without, EdgeSlab, NodeHeader};
use crate::view::{EdgeView, GraphView, ListKey};

verus! {

// ---------------------------------------------------------- list lemmas ---

/// A list whose members' links did not change is the same list.
pub proof fn list_frame(a: EdgeSlab, b: EdgeSlab, head: u32, dir: Dir)
    requires
        a.is_ring(head, dir),
        forall|i: int|
            0 <= i < a.list(head, dir).len() ==> {
                let m = #[trigger] a.list(head, dir)[i];
                b.slots@[m as int].spec_next(dir) == a.slots@[m as int].spec_next(dir)
                    && b.slots@[m as int].spec_prev(dir) == a.slots@[m as int].spec_prev(dir)
            },
    ensures
        b.is_ring(head, dir),
        b.list(head, dir) == a.list(head, dir),
{
    let s = a.list(head, dir);
    let (n1, p1) = (nexts(a.slots@, dir), prevs(a.slots@, dir));
    let (n2, p2) = (nexts(b.slots@, dir), prevs(b.slots@, dir));
    crate::ring::ring_is_list(n1, p1, s);
    crate::ring::ring_frame(n1, p1, n2, p2, s);
    crate::ring::ring_is_list(n2, p2, s);
    list_starts_at_head(a, head, dir);
}

/// A list is empty exactly when its head is 0; otherwise it starts there.
pub proof fn list_starts_at_head(a: EdgeSlab, head: u32, dir: Dir)
    ensures
        head == 0 ==> a.list(head, dir).len() == 0,
        head != 0 ==> a.list(head, dir).len() > 0 && a.list(head, dir)[0] == head,
{
    let n = nexts(a.slots@, dir);
    assert(n.len() == MAX_EDGES);
}

/// Splicing links of live edges keeps the arena's books in order.
pub proof fn relink_keeps_edges(a: EdgeSlab, b: EdgeSlab, dir: Dir, members: Seq<u32>)
    requires
        a.wf(),
        relinked(a.slots@, b.slots@, dir, members),
        b.same_counters(a),
        forall|i: int|
            0 <= i < members.len() ==> (#[trigger] members[i]) < MAX_EDGES
                && a.slots@[members[i] as int].spec_is_live(),
    ensures
        b.wf(),
        b.books().gens == a.books().gens,
        b.books().stock() == a.books().stock(),
{
    let (x, y) = (a.books(), b.books());
    assert(x.gens =~= y.gens) by {
        assert forall|i: int| 0 <= i < x.gens.len() implies x.gens[i] == y.gens[i] by {
            assert(b.slots@[i].generation == a.slots@[i].generation);
        }
    }
    assert forall|i: int| 0 <= i < x.gens.len() && !crate::arena::is_odd(x.gens[i]) implies
        #[trigger] y.next[i] == x.next[i] by {
        if members.contains(i as u32) {
            let j = choose|j: int| 0 <= j < members.len() && members[j] == i as u32;
            assert(a.slots@[members[j] as int].spec_is_live());
        }
        assert(b.slots@[i] == a.slots@[i]);
    }
    crate::arena::relink_keeps_books(x, y);
}

impl Graph {
    /// Why a link would be refused, if it would.
    pub open spec fn link_refusal(self, src: NodeId, kind: EdgeKind, dst: NodeId) -> Option<
        GraphError,
    > {
        if src.kind() is None {
            Some(GraphError::StaleNode(src))
        } else if dst.kind() is None {
            Some(GraphError::StaleNode(dst))
        } else if !crate::id::spec_compatible(kind, src.kind()->Some_0, dst.kind()->Some_0) {
            Some(
                GraphError::Incompatible {
                    kind,
                    src: src.kind()->Some_0,
                    dst: dst.kind()->Some_0,
                },
            )
        } else if !self@.live(src) {
            Some(GraphError::StaleNode(src))
        } else if self@.dying(src) {
            Some(GraphError::Dying(src))
        } else if !self@.live(dst) {
            Some(GraphError::StaleNode(dst))
        } else if self@.dying(dst) {
            Some(GraphError::Dying(dst))
        } else if self@.edge_stock.full() {
            Some(GraphError::EdgeArenaFull)
        } else {
            None
        }
    }

    /// The id the next edge will get.
    pub open spec fn next_edge(self) -> EdgeId {
        self@.next_edge()
    }

    /// Fail early if the edge arena cannot take one more edge, so that
    /// multi-step operations never half-apply.
    pub(crate) fn reserve_edge(&self) -> (r: Result<()>)
        requires
            self.edges.wf(),
        ensures
            self@.edge_stock.full() ==> r == Err::<(), GraphError>(GraphError::EdgeArenaFull),
            !self@.edge_stock.full() ==> r == Ok::<(), GraphError>(()),
    {
        proof {
            let b = self.edges.books();
            crate::arena::stock_of_books(b);
            crate::arena::chain_is_short(b.next, b.free_head, b.free());
            assert(b.free_head == 0 <==> b.free().len() == 0);
        }
        if self.edges.live_count() + self.edges.retired_count() >= self.edges.capacity() {
            Err(GraphError::EdgeArenaFull)
        } else {
            Ok(())
        }
    }

    /// Everything `link_raw` would reject, checked without mutating anything.
    ///
    /// Multi-step operations call this first so that a rejected transition
    /// leaves the graph exactly as it found it.
    pub fn precheck_link(&self, src: NodeId, kind: EdgeKind, dst: NodeId) -> (r: Result<()>)
        requires
            self.edges.wf(),
        ensures
            match self.link_refusal(src, kind, dst) {
                Some(e) => r == Err::<(), GraphError>(e),
                None => r == Ok::<(), GraphError>(()),
            },
    {
        let sk = match src.kind() {
            Some(k) => k,
            None => return Err(GraphError::StaleNode(src)),
        };
        let dk = match dst.kind() {
            Some(k) => k,
            None => return Err(GraphError::StaleNode(dst)),
        };
        if !compatible(kind, sk, dk) {
            return Err(GraphError::Incompatible { kind, src: sk, dst: dk });
        }
        match self.header(src) {
            None => return Err(GraphError::StaleNode(src)),
            Some(h) => {
                if h.is_dying() {
                    return Err(GraphError::Dying(src));
                }
            },
        }
        match self.header(dst) {
            None => return Err(GraphError::StaleNode(dst)),
            Some(h) => {
                if h.is_dying() {
                    return Err(GraphError::Dying(dst));
                }
            },
        }
        self.reserve_edge()
    }

    /// Write one list head of a live node.
    pub(crate) fn set_list_head(&mut self, id: NodeId, dir: Dir, kind: EdgeKind, v: u32)
        requires
            old(self).spec_live(id),
        ensures
            final(self).hdr_rewritten(*old(self), id, final(self).hdr(id)),
            final(self).hdr(id).with_head(old(self).hdr(id), dir, kind, v),
    {
        match self.header_mut(id) {
            Some(h) => h.set_head(dir, kind, v),
            None => {},
        }
        assert(self.cell(id.kind()->Some_0, id.idx() as int) == self.cell_at(id));
    }

    /// Read one list head of a node; an empty list if there is no such node.
    pub(crate) fn list_head(&self, id: NodeId, dir: Dir, kind: EdgeKind) -> (r: u32)
        ensures
            r == if self.spec_live(id) {
                self.hdr(id).spec_head(dir, kind)
            } else {
                0
            },
    {
        match self.header(id) {
            Some(h) => h.head(dir, kind),
            None => 0,
        }
    }
}

/// The arena after an edge was written and threaded in holds the linked graph.
#[verifier::spinoff_prover]
#[verifier::rlimit(50)]
proof fn link_view(
    g0: Graph,
    e1: EdgeSlab,
    e2: EdgeSlab,
    g: Graph,
    src: NodeId,
    kind: EdgeKind,
    dst: NodeId,
    data: Seq<u8>,
    ei: u32,
    eg: u32,
)
    requires
        g0.wf(),
        g0.spec_live(src),
        g0.spec_live(dst),
        crate::id::spec_compatible(kind, src.kind()->Some_0, dst.kind()->Some_0),
        !g0.edge_live(ei),
        0 < ei < MAX_EDGES,
        eg % 2 == 1,
        data.len() == 24,
        e1.slots@ == g0.edges.slots@.update(ei as int, e1.slots@[ei as int]),
        edge_view(e1.slots@[ei as int]) == (EdgeView { src, dst, kind, data, generation: eg }),
        e1.slots@[ei as int].kind == kind.spec_code(),
        relinked(e1.slots@, e2.slots@, Dir::Out, g0@.list(src, Dir::Out, kind).push(ei)),
        e2.is_ring(g.hdr(src).spec_head(Dir::Out, kind), Dir::Out),
        e2.list(g.hdr(src).spec_head(Dir::Out, kind), Dir::Out) == g0@.list(
            src,
            Dir::Out,
            kind,
        ).push(ei),
        relinked(e2.slots@, g.edges.slots@, Dir::In, g0@.list(dst, Dir::In, kind).push(ei)),
        g.edges.is_ring(g.hdr(dst).spec_head(Dir::In, kind), Dir::In),
        g.edges.list(g.hdr(dst).spec_head(Dir::In, kind), Dir::In) == g0@.list(
            dst,
            Dir::In,
            kind,
        ).push(ei),
        g.arenas_ok(),
        g.edges.books().stock() == g0.edges.books().stock().after_alloc(),
        forall|k: NodeKind| #[trigger] g.books(k) == g0.books(k),
        forall|n: NodeId| #[trigger] g.spec_live(n) == g0.spec_live(n),
        forall|n: NodeId| #[trigger]
            g0.spec_live(n) ==> {
                &&& g.cell_at(n).body == g0.cell_at(n).body
                &&& g.hdr(n).kind == g0.hdr(n).kind
                &&& g.hdr(n).flags == g0.hdr(n).flags
                &&& g.hdr(n).next_dying == g0.hdr(n).next_dying
                &&& g.hdr(n).owner == if n == dst && kind == EdgeKind::Owns {
                    src
                } else {
                    g0.hdr(n).owner
                }
            },
        forall|n: NodeId, d: Dir, k: EdgeKind|
            g0.spec_live(n) && !(n == src && d == Dir::Out && k == kind) && !(n == dst && d
                == Dir::In && k == kind) ==> #[trigger] g.hdr(n).spec_head(d, k) == g0.hdr(
                n,
            ).spec_head(d, k),
        g.seq == g0.seq + 1,
        g.dying_head == g0.dying_head,
        g.root_id == g0.root_id,
    ensures
        g.wf(),
        g@ == g0@.link(src, kind, dst, data, ei, eg),
{
    let v0 = g0@;
    let v = g@;
    let w = v0.link(src, kind, dst, data, ei, eg);
    let e0 = g0.edges;
    let e3 = g.edges;
    let key_out: ListKey = (src, Dir::Out, kind);
    let key_in: ListKey = (dst, Dir::In, kind);
    // Every slot but the new one keeps all but its links.
    assert forall|e: u32| e != ei && e < MAX_EDGES implies ({
        let (a, b) = (e0.slots@[e as int], #[trigger] e3.slots@[e as int]);
        &&& b.src == a.src
        &&& b.dst == a.dst
        &&& b.kind == a.kind
        &&& b.data == a.data
        &&& b.generation == a.generation
    }) by {
        assert(e2.slots@[e as int].src == e1.slots@[e as int].src);
    }
    let ne = e3.slots@[ei as int];
    assert(e2.slots@[ei as int].src == e1.slots@[ei as int].src);
    assert(ne.src == src && ne.dst == dst && ne.kind == kind.spec_code() && ne.data.0@ == data
        && ne.generation == eg);
    assert(v.edges.dom() =~= w.edges.dom()) by {
        assert forall|e: u32| v.edges.contains_key(e) <==> w.edges.contains_key(e) by {
            if e != ei && e < MAX_EDGES {
                assert(e3.slots@[e as int].generation == e0.slots@[e as int].generation);
            }
        }
    }
    assert forall|e: u32| v.edges.contains_key(e) implies v.edges[e] == w.edges[e] by {
        if e != ei {
            assert(e3.slots@[e as int].generation == e0.slots@[e as int].generation);
        }
    }
    assert(v.edges =~= w.edges);
    assert(v.nodes.dom() =~= w.nodes.dom());
    assert forall|n: NodeId| v.nodes.contains_key(n) implies v.nodes[n] == w.nodes[n] by {
        assert(g0.spec_live(n));
    }
    assert(v.nodes =~= w.nodes);
    assert(v.node_stock =~= w.node_stock);
    // Each list.
    assert forall|key: ListKey| g0.spec_live(key.0) implies #[trigger] g.edges.is_ring(
        g.hdr(key.0).spec_head(key.1, key.2),
        key.1,
    ) && g.edges.list(g.hdr(key.0).spec_head(key.1, key.2), key.1) == w.lists[key] by {
        let head = g.hdr(key.0).spec_head(key.1, key.2);
        assert(v0.lists.contains_key(key));
        assert(v0.list_ok(key));
        assert(v0.lists.contains_key(key_out) && v0.lists.contains_key(key_in));
        assert(v0.list_ok(key_out) && v0.list_ok(key_in));
        let s = v0.lists[key];
        assert forall|i: int| 0 <= i < s.len() implies (#[trigger] s[i]) != ei && s[i]
            < MAX_EDGES by {
            assert(v0.edges.contains_key(s[i]));
            assert(g0.edge_live(s[i]));
        }
        if key == key_out {
            assert forall|i: int| 0 <= i < e2.list(head, Dir::Out).len() implies ({
                let m = #[trigger] e2.list(head, Dir::Out)[i];
                e3.slots@[m as int].spec_next(Dir::Out) == e2.slots@[m as int].spec_next(Dir::Out)
                    && e3.slots@[m as int].spec_prev(Dir::Out) == e2.slots@[m as int].spec_prev(
                    Dir::Out,
                )
            }) by {
                let m = e2.list(head, Dir::Out)[i];
                assert(0 < m < MAX_EDGES) by {
                    assert(crate::ring::ring(
                        nexts(e2.slots@, Dir::Out),
                        prevs(e2.slots@, Dir::Out),
                        e2.list(head, Dir::Out),
                    ));
                }
                assert(e3.slots@[m as int] == e2.slots@[m as int].with_next(
                    Dir::In,
                    e3.slots@[m as int].spec_next(Dir::In),
                ).with_prev(Dir::In, e3.slots@[m as int].spec_prev(Dir::In)));
            }
            list_frame(e2, e3, head, Dir::Out);
        } else if key == key_in {
        } else {
            assert(head == g0.hdr(key.0).spec_head(key.1, key.2));
            assert(e0.is_ring(head, key.1));
            assert(s == e0.list(head, key.1));
            assert forall|i: int| 0 <= i < s.len() implies ({
                let m = #[trigger] s[i];
                e3.slots@[m as int].spec_next(key.1) == e0.slots@[m as int].spec_next(key.1)
                    && e3.slots@[m as int].spec_prev(key.1) == e0.slots@[m as int].spec_prev(key.1)
            }) by {
                let m = s[i];
                assert(m != ei && m < MAX_EDGES);
                assert(v0.edges[m].kind == key.2 && v0.edges[m].endpoint(key.1) == key.0);
                let so = v0.lists[key_out].push(ei);
                let si = v0.lists[key_in].push(ei);
                if key.1 == Dir::Out {
                    assert(!so.contains(m)) by {
                        if so.contains(m) {
                            let j = choose|j: int| 0 <= j < so.len() && so[j] == m;
                            assert(v0.lists[key_out][j] == m);
                        }
                    }
                    assert(e2.slots@[m as int] == e1.slots@[m as int]);
                    assert(e3.slots@[m as int] == e2.slots@[m as int].with_next(
                        Dir::In,
                        e3.slots@[m as int].spec_next(Dir::In),
                    ).with_prev(Dir::In, e3.slots@[m as int].spec_prev(Dir::In)));
                } else {
                    assert(!si.contains(m)) by {
                        if si.contains(m) {
                            let j = choose|j: int| 0 <= j < si.len() && si[j] == m;
                            assert(v0.lists[key_in][j] == m);
                        }
                    }
                    assert(e3.slots@[m as int] == e2.slots@[m as int]);
                    assert(e2.slots@[m as int] == e1.slots@[m as int].with_next(
                        Dir::Out,
                        e2.slots@[m as int].spec_next(Dir::Out),
                    ).with_prev(Dir::Out, e2.slots@[m as int].spec_prev(Dir::Out)));
                }
            }
            list_frame(e0, e3, head, key.1);
        }
    }
    assert(v.lists.dom() =~= w.lists.dom());
    assert forall|key: ListKey| v.lists.contains_key(key) implies v.lists[key] == w.lists[key] by {
        assert(g0.spec_live(key.0));
        assert(g.edges.is_ring(g.hdr(key.0).spec_head(key.1, key.2), key.1));
    }
    assert(v.lists =~= w.lists);
    assert(g.rings_ok()) by {
        assert forall|n: NodeId, d: Dir, k: EdgeKind|
            g.spec_live(n) implies #[trigger] g.edges.is_ring(g.hdr(n).spec_head(d, k), d) by {
            let key: ListKey = (n, d, k);
            assert(g0.spec_live(key.0));
            assert(g.edges.is_ring(g.hdr(key.0).spec_head(key.1, key.2), key.1));
        }
    }
    assert(g.headers_ok()) by {
        assert forall|n: NodeId| #[trigger] g.spec_live(n) implies g.hdr(n).kind
            == n.kind_raw() by {
            assert(g0.spec_live(n));
        }
    }
    assert(g.edge_kinds_ok()) by {
        assert forall|e: u32| #[trigger]
            g.edge_live(e) implies g.edges.slots@[e as int].spec_edge_kind() is Some by {
            if e != ei {
                assert(e3.slots@[e as int].generation == e0.slots@[e as int].generation);
                assert(g0.edge_live(e));
            }
        }
    }
    link_wf(v0, src, kind, dst, data, ei, eg);
}

/// Linking live nodes of kinds that fit, through an unused edge, keeps the
/// view well formed.
pub proof fn link_wf(
    v: GraphView,
    src: NodeId,
    kind: EdgeKind,
    dst: NodeId,
    data: Seq<u8>,
    ei: u32,
    eg: u32,
)
    requires
        v.wf(),
        v.live(src),
        v.live(dst),
        crate::id::spec_compatible(kind, src.kind()->Some_0, dst.kind()->Some_0),
        !v.edges.contains_key(ei),
        0 < ei < MAX_EDGES,
        eg % 2 == 1,
        data.len() == 24,
    ensures
        v.link(src, kind, dst, data, ei, eg).wf(),
{
    let w = v.link(src, kind, dst, data, ei, eg);
    let key_out: ListKey = (src, Dir::Out, kind);
    let key_in: ListKey = (dst, Dir::In, kind);
    assert(v.lists.contains_key(key_out) && v.lists.contains_key(key_in));
    assert(v.list_ok(key_out) && v.list_ok(key_in));
    assert(v.node_ok(src) && v.node_ok(dst));
    assert forall|key: ListKey| #[trigger] w.lists.contains_key(key) <==> w.nodes.contains_key(
        key.0,
    ) by {
        assert(v.lists.contains_key(key) <==> v.nodes.contains_key(key.0));
    }
    assert forall|key: ListKey| #[trigger] w.lists.contains_key(key) implies w.list_ok(key) by {
        assert(v.lists.contains_key(key) <==> v.nodes.contains_key(key.0));
        assert(v.list_ok(key));
        let s = v.lists[key];
        let t = w.lists[key];
        assert forall|i: int| 0 <= i < s.len() implies (#[trigger] s[i]) != ei by {
            assert(v.edges.contains_key(s[i]));
        }
        if key == key_out || key == key_in {
            assert(t == s.push(ei));
            assert forall|i: int| 0 <= i < t.len() implies w.edges.contains_key(#[trigger] t[i])
                && w.edges[t[i]].kind == key.2 && w.edges[t[i]].endpoint(key.1) == key.0 by {
                if i < s.len() {
                    assert(t[i] == s[i]);
                }
            }
            assert(t.no_duplicates());
        } else {
            assert(t == s);
        }
    }
    assert forall|e: u32| #[trigger] w.edges.contains_key(e) implies w.edge_ok(e) by {
        if e == ei {
            let so = w.lists[key_out];
            let si = w.lists[key_in];
            assert(so[so.len() - 1] == ei);
            assert(si[si.len() - 1] == ei);
        } else {
            assert(v.edges.contains_key(e));
            assert(v.edge_ok(e));
            let x = v.edges[e];
            let a = v.list(x.src, Dir::Out, x.kind);
            let b = v.list(x.dst, Dir::In, x.kind);
            let ja = a.index_of(e);
            let jb = b.index_of(e);
            assert(a[ja] == e && b[jb] == e);
            assert(w.list(x.src, Dir::Out, x.kind)[ja] == e);
            assert(w.list(x.dst, Dir::In, x.kind)[jb] == e);
        }
    }
    assert forall|n: NodeId| #[trigger] w.nodes.contains_key(n) implies w.node_ok(n) by {
        assert(v.nodes.contains_key(n));
        assert(v.node_ok(n));
    }
}

impl Graph {
    /// The nodes are as they were, but for one list head.
    pub open spec fn same_but_head(self, o: Graph, id: NodeId, dir: Dir, kind: EdgeKind) -> bool {
        &&& self.seq == o.seq
        &&& self.dying_head == o.dying_head
        &&& self.root_id == o.root_id
        &&& forall|k: NodeKind| #[trigger] self.books(k) == o.books(k)
        &&& forall|n: NodeId| #[trigger] self.spec_live(n) == o.spec_live(n)
        &&& forall|n: NodeId| #[trigger]
            o.spec_live(n) ==> {
                &&& self.cell_at(n).body == o.cell_at(n).body
                &&& self.hdr(n).kind == o.hdr(n).kind
                &&& self.hdr(n).flags == o.hdr(n).flags
                &&& self.hdr(n).next_dying == o.hdr(n).next_dying
                &&& self.hdr(n).owner == o.hdr(n).owner
            }
        &&& forall|n: NodeId, d: Dir, k: EdgeKind|
            o.spec_live(n) && !(n == id && d == dir && k == kind) ==> #[trigger] self.hdr(
                n,
            ).spec_head(d, k) == o.hdr(n).spec_head(d, k)
    }

    /// Thread a live edge onto the tail of one list.
    fn attach(&mut self, id: NodeId, dir: Dir, kind: EdgeKind, ei: u32)
        requires
            old(self).spec_live(id),
            old(self).edges.wf(),
            old(self).edges.is_ring(old(self).hdr(id).spec_head(dir, kind), dir),
            old(self).edge_live(ei),
            ei > 0,
            !old(self)@.list(id, dir, kind).contains(ei),
            forall|i: int|
                0 <= i < old(self)@.list(id, dir, kind).len() ==> old(self).edge_live(
                    #[trigger] old(self)@.list(id, dir, kind)[i],
                ),
        ensures
            final(self).edges.wf(),
            final(self).edges.books().gens == old(self).edges.books().gens,
            final(self).edges.books().stock() == old(self).edges.books().stock(),
            relinked(
                old(self).edges.slots@,
                final(self).edges.slots@,
                dir,
                old(self)@.list(id, dir, kind).push(ei),
            ),
            final(self).edges.is_ring(final(self).hdr(id).spec_head(dir, kind), dir),
            final(self).edges.list(final(self).hdr(id).spec_head(dir, kind), dir) == old(self)@.list(id, dir, kind).push(ei),
            final(self).same_but_head(*old(self), id, dir, kind),
    {
        let ghost g0 = *self;
        let ghost s = self@.list(id, dir, kind);
        // Copy the head out, splice, write it back. This borrows only the edge
        // arena at a time.
        let head: u32 = self.list_head(id, dir, kind);
        let new_head: u32 = list_push_tail(&mut self.edges, head, ei, dir);
        proof {
            let t = s.push(ei);
            assert forall|i: int| 0 <= i < t.len() implies (#[trigger] t[i]) < MAX_EDGES
                && g0.edges.slots@[t[i] as int].spec_is_live() by {
                if i < s.len() {
                    assert(t[i] == s[i]);
                    assert(g0.edge_live(s[i]));
                }
            }
            relink_keeps_edges(g0.edges, self.edges, dir, t);
        }
        let ghost g1 = *self;
        self.set_list_head(id, dir, kind, new_head);
        proof {
            assert forall|n: NodeId| #[trigger] g1.spec_live(n) == g0.spec_live(n) by {}
            head_rewrite_keeps(*self, g1, id, dir, kind, new_head);
            assert forall|k: NodeKind| #[trigger] self.books(k) == g0.books(k) by {
                assert(self.books(k) == g1.books(k));
                assert(g1.books(k) == g0.books(k));
            }
            assert forall|n: NodeId| #[trigger] g0.spec_live(n) implies ({
                &&& self.cell_at(n).body == g0.cell_at(n).body
                &&& self.hdr(n).kind == g0.hdr(n).kind
                &&& self.hdr(n).flags == g0.hdr(n).flags
                &&& self.hdr(n).next_dying == g0.hdr(n).next_dying
                &&& self.hdr(n).owner == g0.hdr(n).owner
            }) by {
                assert(g1.spec_live(n));
            }
        }
    }

    /// The generic edge constructor. Checks compatibility at runtime; the
    /// typed `link_*` wrappers make that check redundant at their call sites.
    #[verifier::rlimit(30)]
    pub fn link_raw(
        &mut self,
        src: NodeId,
        kind: EdgeKind,
        dst: NodeId,
        data: RawEdgeData,
    ) -> (r: Result<EdgeId>)
        requires
            old(self).wf(),
            old(self).seq < u64::MAX,
        ensures
            final(self).wf(),
            match old(self).link_refusal(src, kind, dst) {
                Some(e) => r == Err::<EdgeId, GraphError>(e) && *final(self) == *old(self),
                None => {
                    let id = old(self).next_edge();
                    &&& r == Ok::<EdgeId, GraphError>(id)
                    &&& !old(self)@.edges.contains_key(id.idx())
                    &&& 0 < id.idx() < MAX_EDGES
                    &&& id.generation() % 2 == 1
                    &&& final(self)@ == old(self)@.link(
                        src,
                        kind,
                        dst,
                        data.0@,
                        id.idx(),
                        id.generation(),
                    )
                    &&& forall|k: NodeKind| #[trigger] final(self).books(k) == old(self).books(k)
                },
            },
            final(self)@.since(old(self)@),
    {
        match self.precheck_link(src, kind, dst) {
            Err(e) => return Err(e),
            Ok(_) => {},
        }
        let ghost g0 = *self;
        proof {
            crate::arena::stock_of_books(g0.edges.books());
            crate::arena::alloc_from_stock(g0.edges.books());
        }
        let (ei, eg): (u32, u32) = match self.edges.allocate() {
            Some(p) => p,
            None => return Err(GraphError::EdgeArenaFull),
        };
        proof {
            crate::id::edge_id_round_trip(EdgeId(0), ei, eg);
        }
        let ghost e_new = self.edges;
        {
            let e = self.edges.at_mut(ei);
            e.src = src;
            e.dst = dst;
            e.kind = kind.code();
            e.data = data;
        }
        let ghost g1 = *self;
        proof {
            assert(g1.edges.slots@ =~= g0.edges.slots@.update(
                ei as int,
                g1.edges.slots@[ei as int],
            ));
            assert(g1.edges.books().gens =~= e_new.books().gens);
            assert(g1.edges.books().next =~= e_new.books().next);
            assert(!g0.edge_live(ei));
            link_list_stays(g0, g1, ei, src, Dir::Out, kind);
            link_list_stays(g0, g1, ei, dst, Dir::In, kind);
            written_edge_only(g1, g0, ei);
        }
        self.attach(src, Dir::Out, kind, ei);
        let ghost g2 = *self;
        proof {
            other_direction_stays(g1, g2, src, dst, kind, ei);
        }
        self.attach(dst, Dir::In, kind, ei);
        let ghost g3 = *self;
        if kind.code() == EdgeKind::Owns.code() {
            match self.header_mut(dst) {
                Some(h) => {
                    h.owner = src;
                },
                None => {},
            }
            proof {
                owner_rewrite_keeps(*self, g3, dst, src);
            }
        }
        let ghost g4 = *self;
        self.seq = self.seq + 1;
        proof {
            link_chain(g0, g1, g2, g3, g4, *self, src, kind, dst);
            link_view(g0, g1.edges, g2.edges, *self, src, kind, dst, data.0@, ei, eg);
        }
        Ok(EdgeId::new(ei, eg))
    }
}

/// Writing one edge slot leaves the nodes alone.
proof fn written_edge_only(g1: Graph, g0: Graph, ei: u32)
    requires
        g1 == (Graph { edges: g1.edges, ..g0 }),
    ensures
        forall|k: NodeKind| #[trigger] g1.books(k) == g0.books(k),
        forall|n: NodeId| #[trigger] g1.spec_live(n) == g0.spec_live(n),
        forall|n: NodeId| #[trigger] g1.hdr(n) == g0.hdr(n),
        forall|n: NodeId| #[trigger] g1.cell_at(n) == g0.cell_at(n),
{
}

/// Splicing an out-list leaves every in-list alone.
proof fn other_direction_stays(
    g1: Graph,
    g2: Graph,
    src: NodeId,
    dst: NodeId,
    kind: EdgeKind,
    ei: u32,
)
    requires
        g1.spec_live(dst),
        g2.same_but_head(g1, src, Dir::Out, kind),
        relinked(
            g1.edges.slots@,
            g2.edges.slots@,
            Dir::Out,
            g1@.list(src, Dir::Out, kind).push(ei),
        ),
        g1.edges.is_ring(g1.hdr(dst).spec_head(Dir::In, kind), Dir::In),
        forall|i: int|
            0 <= i < g1@.list(dst, Dir::In, kind).len() ==> g1.edge_live(
                #[trigger] g1@.list(dst, Dir::In, kind)[i],
            ),
        g1.edge_live(ei),
    ensures
        g2.edges.is_ring(g2.hdr(dst).spec_head(Dir::In, kind), Dir::In),
        g2@.list(dst, Dir::In, kind) == g1@.list(dst, Dir::In, kind),
        g2.hdr(dst).spec_head(Dir::In, kind) == g1.hdr(dst).spec_head(Dir::In, kind),
        forall|i: int|
            0 <= i < g2@.list(dst, Dir::In, kind).len() ==> g2.edge_live(
                #[trigger] g2@.list(dst, Dir::In, kind)[i],
            ),
        g2.edge_live(ei),
{
    let head = g1.hdr(dst).spec_head(Dir::In, kind);
    let s = g1.edges.list(head, Dir::In);
    assert(g2.hdr(dst).spec_head(Dir::In, kind) == head);
    assert(g1@.lists[(dst, Dir::In, kind)] == s);
    assert forall|m: u32| #[trigger] g1.edge_live(m) implies g2.edge_live(m)
        && g2.edges.slots@[m as int].spec_next(Dir::In) == g1.edges.slots@[m as int].spec_next(
        Dir::In,
    ) && g2.edges.slots@[m as int].spec_prev(Dir::In) == g1.edges.slots@[m as int].spec_prev(
        Dir::In,
    ) by {
        let b = g2.edges.slots@[m as int];
        assert(b == g1.edges.slots@[m as int].with_next(Dir::Out, b.spec_next(Dir::Out)).with_prev(
            Dir::Out,
            b.spec_prev(Dir::Out),
        ));
    }
    list_frame(g1.edges, g2.edges, head, Dir::In);
    assert(g2.spec_live(dst));
    assert(g2@.lists[(dst, Dir::In, kind)] == s);
}

/// What the steps of a link did to the nodes, put together.
proof fn link_chain(
    g0: Graph,
    g1: Graph,
    g2: Graph,
    g3: Graph,
    g4: Graph,
    g: Graph,
    src: NodeId,
    kind: EdgeKind,
    dst: NodeId,
)
    requires
        g0.arenas_ok(),
        g0.spec_live(src),
        g0.spec_live(dst),
        g1 == (Graph { edges: g1.edges, ..g0 }),
        g2.same_but_head(g1, src, Dir::Out, kind),
        g3.same_but_head(g2, dst, Dir::In, kind),
        g3.edges.wf(),
        kind == EdgeKind::Owns ==> g4.hdr_rewritten(
            g3,
            dst,
            NodeHeader { owner: src, ..g3.hdr(dst) },
        ),
        kind != EdgeKind::Owns ==> g4 == g3,
        g == (Graph { seq: g.seq, ..g4 }),
    ensures
        g.arenas_ok(),
        g.edges == g3.edges,
        g.dying_head == g0.dying_head,
        g.root_id == g0.root_id,
        forall|k: NodeKind| #[trigger] g.books(k) == g0.books(k),
        forall|n: NodeId| #[trigger] g.spec_live(n) == g0.spec_live(n),
        forall|n: NodeId| #[trigger]
            g0.spec_live(n) ==> {
                &&& g.cell_at(n).body == g0.cell_at(n).body
                &&& g.hdr(n).kind == g0.hdr(n).kind
                &&& g.hdr(n).flags == g0.hdr(n).flags
                &&& g.hdr(n).next_dying == g0.hdr(n).next_dying
                &&& g.hdr(n).owner == if n == dst && kind == EdgeKind::Owns {
                    src
                } else {
                    g0.hdr(n).owner
                }
            },
        forall|n: NodeId, d: Dir, k: EdgeKind|
            g0.spec_live(n) && !(n == src && d == Dir::Out && k == kind) && !(n == dst && d
                == Dir::In && k == kind) ==> #[trigger] g.hdr(n).spec_head(d, k) == g0.hdr(
                n,
            ).spec_head(d, k),
        g.hdr(src).spec_head(Dir::Out, kind) == g2.hdr(src).spec_head(Dir::Out, kind),
        g.hdr(dst).spec_head(Dir::In, kind) == g3.hdr(dst).spec_head(Dir::In, kind),
{
    written_edge_only(g1, g0, 0);
    assert(g2.spec_live(src) && g3.spec_live(src) && g2.spec_live(dst) && g3.spec_live(dst));
    if kind == EdgeKind::Owns {
        owner_rewrite_keeps(g4, g3, dst, src);
    }
    assert(g4.hdr(src).spec_head(Dir::Out, kind) == g3.hdr(src).spec_head(Dir::Out, kind));
    assert(g4.hdr(dst).spec_head(Dir::In, kind) == g3.hdr(dst).spec_head(Dir::In, kind));
    assert(g3.hdr(src).spec_head(Dir::Out, kind) == g2.hdr(src).spec_head(Dir::Out, kind));
    assert forall|n: NodeId| #[trigger] g.spec_live(n) == g4.spec_live(n) && g.cell_at(n)
        == g4.cell_at(n) by {}
    assert forall|k: NodeKind| #[trigger] g.books(k) == g0.books(k) by {
        assert(g.books(k) == g4.books(k));
        assert(g4.books(k) == g3.books(k));
        assert(g3.books(k) == g2.books(k));
        assert(g2.books(k) == g1.books(k));
    }
    assert forall|k: NodeKind| #[trigger] g.books(k).wf() by {
        assert(g.books(k) == g0.books(k));
        assert(g0.books(k).wf());
    }
    assert forall|n: NodeId| #[trigger] g.spec_live(n) == g0.spec_live(n) by {
        assert(g.spec_live(n) == g4.spec_live(n));
        assert(g3.spec_live(n) == g2.spec_live(n));
        assert(g2.spec_live(n) == g1.spec_live(n));
    }
    assert forall|n: NodeId| #[trigger] g0.spec_live(n) implies ({
        &&& g.cell_at(n).body == g0.cell_at(n).body
        &&& g.hdr(n).kind == g0.hdr(n).kind
        &&& g.hdr(n).flags == g0.hdr(n).flags
        &&& g.hdr(n).next_dying == g0.hdr(n).next_dying
        &&& g.hdr(n).owner == if n == dst && kind == EdgeKind::Owns {
            src
        } else {
            g0.hdr(n).owner
        }
    }) by {
        assert(g1.spec_live(n));
        assert(g2.spec_live(n));
        assert(g3.spec_live(n));
        assert(g.cell_at(n) == g4.cell_at(n));
        assert(g1.cell_at(n) == g0.cell_at(n));
    }
    assert forall|n: NodeId, d: Dir, k: EdgeKind|
        g0.spec_live(n) && !(n == src && d == Dir::Out && k == kind) && !(n == dst && d == Dir::In
            && k == kind) implies #[trigger] g.hdr(n).spec_head(d, k) == g0.hdr(n).spec_head(
        d,
        k,
    ) by {
        assert(g1.spec_live(n));
        assert(g2.spec_live(n));
        assert(g3.spec_live(n));
        assert(g4.hdr(n).spec_head(d, k) == g3.hdr(n).spec_head(d, k));
        assert(g3.hdr(n).spec_head(d, k) == g2.hdr(n).spec_head(d, k));
        assert(g2.hdr(n).spec_head(d, k) == g1.hdr(n).spec_head(d, k));
    }
}

/// Writing an unused slot disturbs no list.
proof fn link_list_stays(g0: Graph, g1: Graph, ei: u32, id: NodeId, dir: Dir, kind: EdgeKind)
    requires
        g0.wf(),
        g0.spec_live(id),
        !g0.edge_live(ei),
        g1 == (Graph { edges: g1.edges, ..g0 }),
        g1.edges.slots@ == g0.edges.slots@.update(ei as int, g1.edges.slots@[ei as int]),
        0 < ei < MAX_EDGES,
    ensures
        g1.edges.is_ring(g1.hdr(id).spec_head(dir, kind), dir),
        g1@.list(id, dir, kind) == g0@.list(id, dir, kind),
        !g1@.list(id, dir, kind).contains(ei),
        forall|i: int|
            0 <= i < g1@.list(id, dir, kind).len() ==> g1.edge_live(
                #[trigger] g1@.list(id, dir, kind)[i],
            ),
{
    let key: ListKey = (id, dir, kind);
    let s = g0@.lists[key];
    let head = g0.hdr(id).spec_head(dir, kind);
    assert(g0@.lists.contains_key(key));
    assert(g0@.list_ok(key));
    assert(g0.edges.is_ring(head, dir));
    assert(g0.edges.list(head, dir) == s);
    assert forall|i: int| 0 <= i < s.len() implies (#[trigger] s[i]) != ei && s[i] < MAX_EDGES
        && g1.edge_live(s[i]) by {
        assert(g0@.edges.contains_key(s[i]));
        assert(g0.edge_live(s[i]));
    }
    list_frame(g0.edges, g1.edges, head, dir);
    assert(g1.hdr(id) == g0.hdr(id));
    assert(g1.spec_live(id));
    assert(g1@.lists[key] == s);
}

/// Writing one list head changes that head and nothing else.
pub proof fn head_rewrite_keeps(
    g: Graph,
    o: Graph,
    id: NodeId,
    dir: Dir,
    kind: EdgeKind,
    v: u32,
)
    requires
        o.spec_live(id),
        g.seq == o.seq,
        g.dying_head == o.dying_head,
        g.root_id == o.root_id,
        g.hdr(id).with_head(o.hdr(id), dir, kind, v),
        forall|k: NodeKind| #[trigger] g.counters(k) == o.counters(k),
        forall|k: NodeKind, i: int|
            0 <= i < Graph::cap(k) ==> #[trigger] g.cell(k, i) == if k == id.kind()->Some_0 && i
                == id.idx() {
                Cell { hdr: g.hdr(id), ..o.cell_at(id) }
            } else {
                o.cell(k, i)
            },
    ensures
        forall|k: NodeKind| #[trigger] g.books(k) == o.books(k),
        forall|n: NodeId| #[trigger] g.spec_live(n) == o.spec_live(n),
        forall|n: NodeId| #[trigger]
            o.spec_live(n) ==> {
                &&& g.cell_at(n).body == o.cell_at(n).body
                &&& g.hdr(n).kind == o.hdr(n).kind
                &&& g.hdr(n).flags == o.hdr(n).flags
                &&& g.hdr(n).next_dying == o.hdr(n).next_dying
                &&& g.hdr(n).owner == o.hdr(n).owner
            },
        forall|n: NodeId, d: Dir, k: EdgeKind|
            o.spec_live(n) ==> #[trigger] g.hdr(n).spec_head(d, k) == if n == id && d == dir && k
                == kind {
                v
            } else {
                o.hdr(n).spec_head(d, k)
            },
{
    let k0 = id.kind()->Some_0;
    assert forall|k: NodeKind| #[trigger] g.books(k) == o.books(k) by {
        assert(g.counters(k) == o.counters(k));
        crate::graph::same_books(g, o, k);
    }
    assert forall|n: NodeId| #[trigger] g.spec_live(n) == o.spec_live(n) by {
        if let Some(k) = n.kind() {
            if n.idx() < Graph::cap(k) {
                assert(g.cell(k, n.idx() as int).generation == o.cell(
                    k,
                    n.idx() as int,
                ).generation);
            }
        }
    }
    assert forall|n: NodeId| #[trigger] o.spec_live(n) implies g.cell_at(n) == if n == id {
        Cell { hdr: g.hdr(id), ..o.cell_at(id) }
    } else {
        o.cell_at(n)
    } by {
        let k = n.kind()->Some_0;
        assert(g.cell(k, n.idx() as int) == g.cell_at(n));
        if k == k0 && n.idx() == id.idx() {
            crate::graph::same_slot_same_id(o, n, id);
        }
    }
    assert forall|n: NodeId, d: Dir, k: EdgeKind|
        o.spec_live(n) implies #[trigger] g.hdr(n).spec_head(d, k) == if n == id && d == dir && k
        == kind {
        v
    } else {
        o.hdr(n).spec_head(d, k)
    } by {
        assert(g.cell_at(n) == if n == id {
            Cell { hdr: g.hdr(id), ..o.cell_at(id) }
        } else {
            o.cell_at(n)
        });
    }
}

/// Writing an owner changes that and nothing else.
pub proof fn owner_rewrite_keeps(g: Graph, o: Graph, id: NodeId, owner: NodeId)
    requires
        o.spec_live(id),
        g.hdr_rewritten(o, id, NodeHeader { owner, ..o.hdr(id) }),
    ensures
        forall|k: NodeKind| #[trigger] g.books(k) == o.books(k),
        forall|n: NodeId| #[trigger] g.spec_live(n) == o.spec_live(n),
        forall|n: NodeId| #[trigger]
            o.spec_live(n) ==> {
                &&& g.cell_at(n).body == o.cell_at(n).body
                &&& g.hdr(n).kind == o.hdr(n).kind
                &&& g.hdr(n).flags == o.hdr(n).flags
                &&& g.hdr(n).next_dying == o.hdr(n).next_dying
                &&& g.hdr(n).owner == if n == id {
                    owner
                } else {
                    o.hdr(n).owner
                }
            },
        forall|n: NodeId, d: Dir, k: EdgeKind|
            o.spec_live(n) ==> #[trigger] g.hdr(n).spec_head(d, k) == o.hdr(n).spec_head(d, k),
{
    let k0 = id.kind()->Some_0;
    assert forall|k: NodeKind| #[trigger] g.books(k) == o.books(k) by {
        assert(g.counters(k) == o.counters(k));
        crate::graph::same_books(g, o, k);
    }
    assert forall|n: NodeId| #[trigger] g.spec_live(n) == o.spec_live(n) by {
        if let Some(k) = n.kind() {
            if n.idx() < Graph::cap(k) {
                assert(g.cell(k, n.idx() as int).generation == o.cell(
                    k,
                    n.idx() as int,
                ).generation);
            }
        }
    }
    assert forall|n: NodeId| #[trigger] o.spec_live(n) implies g.cell_at(n) == if n == id {
        Cell { hdr: NodeHeader { owner, ..o.hdr(id) }, ..o.cell_at(id) }
    } else {
        o.cell_at(n)
    } by {
        let k = n.kind()->Some_0;
        assert(g.cell(k, n.idx() as int) == g.cell_at(n));
        if k == k0 && n.idx() == id.idx() {
            crate::graph::same_slot_same_id(o, n, id);
        }
    }
    assert forall|n: NodeId, d: Dir, k: EdgeKind|
        o.spec_live(n) implies #[trigger] g.hdr(n).spec_head(d, k) == o.hdr(n).spec_head(d, k) by {
        assert(g.cell_at(n) == if n == id {
            Cell { hdr: NodeHeader { owner, ..o.hdr(id) }, ..o.cell_at(id) }
        } else {
            o.cell_at(n)
        });
    }
}

} // verus!

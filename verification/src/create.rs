//! Bringing nodes into being, and giving their storage back.

use vstd::prelude::*;

use crate::body::{
    Body, NodeBody, Process, ProcessOwnable, Root, RootOwnable, Thread, ThreadOwnable,
};
use crate::edge::{Dir, RawEdgeData};
use crate::graph::{Cell, Graph, GraphError, Ref, Result};
use crate::id::{EdgeKind, NodeId, NodeKind};
use crate::slab::NodeHeader;
use crate::store::Store;
use crate::view::{GraphView, ListKey};

verus! {

/// A new node starts alive: no flag is set.
pub proof fn no_flags_not_dying()
    ensures
        0u8 & crate::slab::FLAG_DYING == 0,
{
    assert(0u8 & 1u8 == 0) by (bit_vector);
}

/// A head of 0 is an empty ring.
pub proof fn zero_head_is_empty(g: Graph, dir: Dir)
    ensures
        g.edges.is_ring(0, dir),
        g.edges.list(0, dir) == Seq::<u32>::empty(),
{
}

/// Taking a free slot adds one node with no edges to the view.
pub proof fn node_added(
    g: Graph,
    o: Graph,
    kind: NodeKind,
    idx: u32,
    generation: u32,
    body: Body,
)
    requires
        o.wf(),
        g.arenas_ok(),
        g.slot_taken(o, kind, idx, generation, body),
        !o.books(kind).full(),
        body.kind() == kind,
        body.bounded(),
    ensures
        g.wf(),
        !o@.live(NodeId::spec_new(kind, idx, generation)),
        g@ == o@.with_node(NodeId::spec_new(kind, idx, generation), body),
        g@.live(NodeId::spec_new(kind, idx, generation)),
        NodeId::spec_new(kind, idx, generation).kind() == Some(kind),
{
    let id = NodeId::spec_new(kind, idx, generation);
    crate::id::node_id_round_trip(kind, idx, generation);
    assert(!o.spec_live(id));
    assert(o.books(kind).wf());
    crate::arena::alloc_from_stock(o.books(kind));
    let c = Cell { generation, next_free: 0, hdr: NodeHeader::blank(kind.spec_code()), body };
    assert forall|n: NodeId| #[trigger] g.spec_live(n) <==> o.spec_live(n) || n == id by {
        if let Some(k) = n.kind() {
            if n.idx() < Graph::cap(k) {
                assert(g.cell(k, n.idx() as int) == if k == kind && n.idx() == idx {
                    c
                } else {
                    o.cell(k, n.idx() as int)
                });
                if k == kind && n.idx() == idx {
                    crate::id::node_id_parts(n);
                    crate::id::node_id_parts(id);
                }
            }
        }
    }
    assert forall|n: NodeId| #[trigger] g.spec_live(n) implies g.cell_at(n) == if n == id {
        c
    } else {
        o.cell_at(n)
    } by {
        let k = n.kind()->Some_0;
        assert(g.cell(k, n.idx() as int) == g.cell_at(n));
        if k == kind && n.idx() == idx {
            crate::id::node_id_parts(n);
            crate::id::node_id_parts(id);
        }
    }
    let v = g@;
    let w = o@.with_node(id, body);
    assert(v.nodes.dom() =~= w.nodes.dom());
    assert forall|n: NodeId| v.nodes.contains_key(n) implies v.nodes[n] == w.nodes[n] by {
        assert(g.spec_live(n));
    }
    assert(v.nodes =~= w.nodes);
    assert(v.edges =~= w.edges);
    assert forall|d: Dir, k: EdgeKind| #[trigger] c.hdr.spec_head(d, k) == 0 by {}
    assert(v.lists.dom() =~= w.lists.dom()) by {
        assert forall|key: ListKey| v.lists.contains_key(key) <==> w.lists.contains_key(key) by {
            assert(g.spec_live(key.0) <==> o.spec_live(key.0) || key.0 == id);
            assert(o@.lists.contains_key(key) <==> o@.nodes.contains_key(key.0));
        }
    }
    assert forall|key: ListKey| v.lists.contains_key(key) implies v.lists[key] == w.lists[key] by {
        assert(g.spec_live(key.0));
        assert(g.cell_at(key.0) == if key.0 == id {
            c
        } else {
            o.cell_at(key.0)
        });
        if key.0 == id {
            assert(c.hdr.spec_head(key.1, key.2) == 0);
            zero_head_is_empty(g, key.1);
        }
    }
    assert(v.lists =~= w.lists);
    assert(v.node_stock =~= w.node_stock) by {
        assert forall|k: NodeKind| v.node_stock[k] == w.node_stock[k] by {
            assert(k != kind ==> g.books(k) == o.books(k));
        }
    }
    assert(g.headers_ok()) by {
        assert forall|n: NodeId| #[trigger] g.spec_live(n) implies g.hdr(n).kind
            == n.kind_raw() by {
            if n != id {
                assert(o.spec_live(n));
            }
        }
    }
    assert(g.rings_ok()) by {
        assert forall|n: NodeId, d: Dir, k: EdgeKind|
            g.spec_live(n) implies #[trigger] g.edges.is_ring(g.hdr(n).spec_head(d, k), d) by {
            if n == id {
                assert(c.hdr.spec_head(d, k) == 0);
                zero_head_is_empty(g, d);
            } else {
                assert(o.spec_live(n));
                assert(o.edges.is_ring(o.hdr(n).spec_head(d, k), d));
            }
        }
    }
    assert(g.edge_kinds_ok()) by {
        assert forall|e: u32| #[trigger]
            g.edge_live(e) implies g.edges.slots@[e as int].spec_edge_kind() is Some by {
            assert(o.edge_live(e));
        }
    }
    with_node_wf(o@, id, body);
}

/// A new node with no edges keeps the view well formed.
pub proof fn with_node_wf(v: GraphView, id: NodeId, body: Body)
    requires
        v.wf(),
        !v.live(id),
        id.kind() == Some(body.kind()),
        id.generation() % 2 == 1,
        body.bounded(),
    ensures
        v.with_node(id, body).wf(),
{
    let w = v.with_node(id, body);
    assert forall|e: u32| #[trigger] w.edges.contains_key(e) implies w.edge_ok(e) by {
        assert(v.edges.contains_key(e));
        assert(v.edge_ok(e));
    }
    assert forall|key: ListKey| #[trigger] w.lists.contains_key(key) <==> w.nodes.contains_key(
        key.0,
    ) by {
        assert(v.lists.contains_key(key) <==> v.nodes.contains_key(key.0));
    }
    assert forall|key: ListKey| #[trigger] w.lists.contains_key(key) implies w.list_ok(key) by {
        if key.0 != id {
            assert(v.lists.contains_key(key));
            assert(v.list_ok(key));
        }
    }
    assert forall|n: NodeId| #[trigger] w.nodes.contains_key(n) implies w.node_ok(n) by {
        if n != id {
            assert(v.nodes.contains_key(n));
            assert(v.node_ok(n));
        }
    }
}

impl Graph {
    /// The id the next node of a kind will get.
    pub open spec fn next_node(self, kind: NodeKind) -> NodeId {
        self@.next_node(kind)
    }

    /// Why a node could not be created under `owner`, if it could not.
    pub open spec fn create_refusal(self, owner: NodeId, kind: NodeKind) -> Option<GraphError> {
        if !self@.live(owner) {
            Some(GraphError::StaleNode(owner))
        } else if self@.dying(owner) {
            Some(GraphError::Dying(owner))
        } else if self@.edge_stock.full() {
            Some(GraphError::EdgeArenaFull)
        } else if self@.node_stock[kind].full() {
            Some(GraphError::ArenaFull(kind))
        } else {
            None
        }
    }

    /// What creating a node under an owner does: all of it, or none of it.
    pub open spec fn created<B: NodeBody>(
        self,
        o: Graph,
        owner: NodeId,
        body: B,
        r: Result<Ref<B>>,
    ) -> bool {
        match o.create_refusal(owner, B::spec_kind()) {
            Some(e) => r == Err::<Ref<B>, GraphError>(e) && self == o,
            None => {
                let id = o.next_node(B::spec_kind());
                let e = o.next_edge();
                &&& r is Ok
                &&& r->Ok_0.id() == id
                &&& !o@.live(id)
                &&& !o@.edges.contains_key(e.idx())
                &&& id.kind() == Some(B::spec_kind())
                &&& self@ == o@.with_node(id, body.erase()).link(
                    owner,
                    EdgeKind::Owns,
                    id,
                    crate::edge::zeros(24),
                    e.idx(),
                    e.generation(),
                )
            },
        }
    }

    pub fn root(&self) -> (r: Option<Ref<Root>>)
        requires
            self.wf(),
        ensures
            r is None <==> self@.root_id.is_null(),
            r matches Some(x) ==> x.id() == self@.root_id,
    {
        if self.root_id.is_null() {
            None
        } else {
            Some(Ref::from_raw(self.root_id))
        }
    }

    /// Create the one and only root.
    pub fn create_root(&mut self) -> (r: Result<Ref<Root>>)
        requires
            old(self).wf(),
            old(self).seq < u64::MAX,
        ensures
            final(self).wf(),
            !old(self)@.root_id.is_null() ==> r == Err::<Ref<Root>, GraphError>(
                GraphError::RootExists,
            ) && *final(self) == *old(self),
            old(self)@.root_id.is_null() && old(self)@.node_stock[NodeKind::Root].full() ==> r == Err::<
                Ref<Root>,
                GraphError,
            >(GraphError::ArenaFull(NodeKind::Root)) && *final(self) == *old(self),
            old(self)@.root_id.is_null() && !old(self)@.node_stock[NodeKind::Root].full() ==> ({
                let id = old(self).next_node(NodeKind::Root);
                &&& r is Ok
                &&& r->Ok_0.id() == id
                &&& !old(self)@.live(id)
                &&& id.kind() == Some(NodeKind::Root)
                &&& final(self)@ == (GraphView {
                    root_id: id,
                    ..old(self)@.with_node(id, Body::Root(Root::spec_zero())).bumped()
                })
            }),
            final(self)@.since(old(self)@),
    {
        if !self.root_id.is_null() {
            return Err(GraphError::RootExists);
        }
        let ghost g0 = *self;
        proof {
            assert(g0.books(NodeKind::Root).wf());
            crate::arena::stock_of_books(g0.books(NodeKind::Root));
        }
        match Root::arena_alloc(self, Root::zero()) {
            None => Err(GraphError::ArenaFull(NodeKind::Root)),
            Some((i, g)) => {
                let ghost g1 = *self;
                proof {
                    node_added(g1, g0, NodeKind::Root, i, g, Body::Root(Root::spec_zero()));
                }
                let id = NodeId::new(NodeKind::Root, i, g);
                self.root_id = id;
                self.seq = self.seq + 1;
                proof {
                    same_memory_same_graph(*self, g1);
                }
                Ok(Ref::from_raw(id))
            },
        }
    }

    /// The storage half of creation, shared by every kind of owner. The
    /// `Owns` edge is created with the node, which is how every node has
    /// exactly one owner by construction.
    fn create_owned<B: Store>(&mut self, owner: NodeId, body: B) -> (r: Result<Ref<B>>)
        requires
            old(self).wf(),
            old(self).seq < u64::MAX,
            body.erase().bounded(),
            owner.kind() is Some,
            crate::id::spec_compatible(EdgeKind::Owns, owner.kind()->Some_0, B::spec_kind()),
        ensures
            final(self).wf(),
            final(self).created(*old(self), owner, body, r),
            final(self)@.since(old(self)@),
    {
        match self.header(owner) {
            None => return Err(GraphError::StaleNode(owner)),
            Some(h) => {
                if h.is_dying() {
                    return Err(GraphError::Dying(owner));
                }
            },
        }
        // Reserve first: an arena-full failure must not leave a parentless node.
        match self.reserve_edge() {
            Err(e) => return Err(e),
            Ok(_) => {},
        }
        let ghost g0 = *self;
        proof {
            assert(g0.books(B::spec_kind()).wf());
            crate::arena::stock_of_books(g0.books(B::spec_kind()));
        }
        match B::arena_alloc(self, body) {
            None => Err(GraphError::ArenaFull(B::kind())),
            Some((i, g)) => {
                let ghost g1 = *self;
                proof {
                    body.erase_kind();
                    node_added(g1, g0, B::spec_kind(), i, g, body.erase());
                    no_flags_not_dying();
                }
                let id = NodeId::new(B::kind(), i, g);
                let data = RawEdgeData::zero();
                match self.link_raw(owner, EdgeKind::Owns, id, data) {
                    Ok(_) => Ok(Ref::from_raw(id)),
                    Err(e) => Err(e),
                }
            },
        }
    }

    /// Create a node owned by the root.
    pub fn create_under_root<B: RootOwnable + Store>(&mut self, owner: Ref<Root>, body: B) -> (r:
        Result<Ref<B>>)
        requires
            old(self).wf(),
            old(self).seq < u64::MAX,
            body.erase().bounded(),
        ensures
            final(self).wf(),
            final(self).created(*old(self), owner.id(), body, r),
            final(self)@.since(old(self)@),
    {
        let id = owner.id();
        proof {
            <B as RootOwnable>::endpoint_fits();
        }
        self.create_owned(id, body)
    }

    /// Create a node owned by a process.
    pub fn create_under_process<B: ProcessOwnable + Store>(
        &mut self,
        owner: Ref<Process>,
        body: B,
    ) -> (r: Result<Ref<B>>)
        requires
            old(self).wf(),
            old(self).seq < u64::MAX,
            body.erase().bounded(),
        ensures
            final(self).wf(),
            final(self).created(*old(self), owner.id(), body, r),
            final(self)@.since(old(self)@),
    {
        let id = owner.id();
        proof {
            <B as ProcessOwnable>::endpoint_fits();
        }
        self.create_owned(id, body)
    }

    /// Create a node owned by a thread: its kernel stack, which dies with it.
    pub fn create_under_thread<B: ThreadOwnable + Store>(
        &mut self,
        owner: Ref<Thread>,
        body: B,
    ) -> (r: Result<Ref<B>>)
        requires
            old(self).wf(),
            old(self).seq < u64::MAX,
            body.erase().bounded(),
        ensures
            final(self).wf(),
            final(self).created(*old(self), owner.id(), body, r),
            final(self)@.since(old(self)@),
    {
        let id = owner.id();
        proof {
            <B as ThreadOwnable>::endpoint_fits();
        }
        self.create_owned(id, body)
    }
}

/// The memory of a graph decides its nodes, edges and lists; the other fields
/// are read as they stand.
pub proof fn same_memory_same_graph(g: Graph, o: Graph)
    requires
        o.wf(),
        g == (Graph { seq: g.seq, dying_head: g.dying_head, root_id: g.root_id, ..o }),
        g.root_id.is_null() || g.root_id.kind() == Some(NodeKind::Root),
    ensures
        g.wf(),
        g@ == (GraphView {
            seq: g.seq as nat,
            dying_head: g.dying_head,
            root_id: g.root_id,
            ..o@
        }),
        forall|k: NodeKind| #[trigger] g.books(k) == o.books(k),
{
    assert forall|n: NodeId| #[trigger] g.spec_live(n) == o.spec_live(n) && g.cell_at(n)
        == o.cell_at(n) by {}
    assert forall|e: u32| #[trigger] g.edge_live(e) == o.edge_live(e) by {}
    assert(g@.nodes =~= o@.nodes);
    assert(g@.edges =~= o@.edges);
    assert(g@.lists =~= o@.lists);
    assert(g@.node_stock =~= o@.node_stock);
    assert forall|k: NodeKind| #[trigger] g.books(k).wf() by {
        assert(o.books(k).wf());
    }
    assert forall|n: NodeId, d: Dir, k: EdgeKind|
        g.spec_live(n) implies #[trigger] g.edges.is_ring(g.hdr(n).spec_head(d, k), d) by {
        assert(o.edges.is_ring(o.hdr(n).spec_head(d, k), d));
    }
    let (v, w) = (g@, o@);
    assert forall|e: u32| #[trigger] v.edges.contains_key(e) implies v.edge_ok(e) by {
        assert(w.edges.contains_key(e));
        assert(w.edge_ok(e));
    }
    assert forall|key: ListKey| #[trigger] v.lists.contains_key(key) implies v.list_ok(key) by {
        assert(w.lists.contains_key(key));
        assert(w.list_ok(key));
    }
    assert forall|n: NodeId| #[trigger] v.nodes.contains_key(n) implies v.node_ok(n) by {
        assert(w.nodes.contains_key(n));
        assert(w.node_ok(n));
    }
}

} // verus!

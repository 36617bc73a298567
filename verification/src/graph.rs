//! The graph itself: eight typed node arenas, one edge arena, and the
//! operations every other part of the graph is built from.

use core::marker::PhantomData;
use vstd::prelude::*;

use crate::arena::Books;
use crate::body::{
    AddressSpace, Body, Cpu, Device, Endpoint, MemoryObject, NodeBody, Process, Rights, Root,
    Thread,
};
use crate::edge::{Dir, Edge};
use crate::id::{EdgeId, EdgeKind, NodeId, NodeKind};
use crate::limits::{
    MAX_CPUS, MAX_DEVICES, MAX_EDGES, MAX_ENDPOINTS, MAX_MEMOBJS, MAX_PROCESSES, MAX_ROOTS,
    MAX_SPACES, MAX_THREADS,
};
use crate::slab::{EdgeSlab, NodeHeader, Slab, Slot};
use crate::view::{EdgeView, GraphView, ListKey, NodeView};

verus! {

// ------------------------------------------------------------------ error ---

#[derive(Clone, Copy, Debug, PartialEq, Eq, Structural)]
pub enum GraphError {
    /// A node arena of this kind is full.
    ArenaFull(NodeKind),
    EdgeArenaFull,
    /// The id refers to a slot that has been freed and possibly reused.
    StaleNode(NodeId),
    StaleEdge(EdgeId),
    /// The edge kind does not accept this pair of endpoint kinds.
    Incompatible { kind: EdgeKind, src: NodeKind, dst: NodeKind },
    /// The node is being destroyed and may not gain new relationships.
    Dying(NodeId),
    /// The process's handle table is full.
    NoFreeSlot,
    EmptySlot(u32),
    /// Capability lacks a right the operation requires.
    MissingRights { have: Rights, need: Rights },
    NameTooLong,
    /// A root already exists; there is exactly one.
    RootExists,
    /// The virtual range collides with an existing mapping.
    RangeOverlap,
    /// The address space's range index is full.
    TooManyMappings,
    /// The thread is not in a state that permits this transition.
    BadState,
}

pub type Result<T> = core::result::Result<T, GraphError>;

// -------------------------------------------------------------------- ref ---

/// A node id that remembers its body type, so that the `link_*` methods can
/// enforce endpoint compatibility at compile time. The id's kind is always the
/// body's kind.
#[derive(Debug)]
pub struct Ref<B: NodeBody> {
    id: NodeId,
    _p: PhantomData<B>,
}

impl<B: NodeBody> Ref<B> {
    #[verifier::type_invariant]
    pub closed spec fn kind_fits(self) -> bool {
        self.id.kind() == Some(B::spec_kind())
    }

    pub closed spec fn spec_id(self) -> NodeId {
        self.id
    }

    #[verifier::when_used_as_spec(spec_id)]
    pub fn id(self) -> (r: NodeId)
        ensures
            r == self.spec_id(),
            r.kind() == Some(B::spec_kind()),
    {
        proof {
            use_type_invariant(&self);
        }
        self.id
    }

    pub(crate) fn from_raw(id: NodeId) -> (r: Ref<B>)
        requires
            id.kind() == Some(B::spec_kind()),
        ensures
            r.spec_id() == id,
    {
        Ref { id, _p: PhantomData }
    }
}

impl<B: NodeBody> Clone for Ref<B> {
    fn clone(&self) -> (r: Self)
        ensures
            r == *self,
    {
        *self
    }
}

impl<B: NodeBody> Copy for Ref<B> {

}

impl<B: NodeBody> PartialEq for Ref<B> {
    fn eq(&self, o: &Self) -> (r: bool) {
        self.id == o.id
    }
}

impl<B: NodeBody> vstd::std_specs::cmp::PartialEqSpecImpl for Ref<B> {
    open spec fn obeys_eq_spec() -> bool {
        true
    }

    open spec fn eq_spec(&self, o: &Self) -> bool {
        self.spec_id() == o.spec_id()
    }
}

impl<B: NodeBody> Eq for Ref<B> {

}

// ------------------------------------------------------------------ graph ---

pub struct Graph {
    pub roots: Slab<Root, MAX_ROOTS>,
    pub cpus: Slab<Cpu, MAX_CPUS>,
    pub processes: Slab<Process, MAX_PROCESSES>,
    pub threads: Slab<Thread, MAX_THREADS>,
    pub spaces: Slab<AddressSpace, MAX_SPACES>,
    pub memobjs: Slab<MemoryObject, MAX_MEMOBJS>,
    pub endpoints: Slab<Endpoint, MAX_ENDPOINTS>,
    pub devices: Slab<Device, MAX_DEVICES>,
    pub edges: EdgeSlab,
    /// Bumped on every structural mutation; a snapshot carries it so a reader
    /// can tell that two snapshots straddle a change.
    pub seq: u64,
    /// Head of the reaper's pending-deletion list.
    pub dying_head: NodeId,
    pub root_id: NodeId,
}

/// A slot of any arena.
pub struct Cell {
    pub generation: u32,
    pub next_free: u32,
    pub hdr: NodeHeader,
    pub body: Body,
}

pub open spec fn cell_of<B: NodeBody>(s: Slot<B>) -> Cell {
    Cell { generation: s.generation, next_free: s.next_free, hdr: s.hdr, body: s.body.erase() }
}

pub open spec fn edge_view(e: Edge) -> EdgeView {
    EdgeView {
        src: e.src,
        dst: e.dst,
        kind: e.spec_edge_kind()->Some_0,
        data: e.data.0@,
        generation: e.generation,
    }
}

impl Graph {
    /// How many slots the arena of a kind has.
    pub open spec fn cap(kind: NodeKind) -> int {
        match kind {
            NodeKind::Root => MAX_ROOTS as int,
            NodeKind::Cpu => MAX_CPUS as int,
            NodeKind::Process => MAX_PROCESSES as int,
            NodeKind::Thread => MAX_THREADS as int,
            NodeKind::AddressSpace => MAX_SPACES as int,
            NodeKind::MemoryObject => MAX_MEMOBJS as int,
            NodeKind::Endpoint => MAX_ENDPOINTS as int,
            NodeKind::Device => MAX_DEVICES as int,
        }
    }

    pub open spec fn cell(self, kind: NodeKind, i: int) -> Cell {
        match kind {
            NodeKind::Root => cell_of(self.roots.slots@[i]),
            NodeKind::Cpu => cell_of(self.cpus.slots@[i]),
            NodeKind::Process => cell_of(self.processes.slots@[i]),
            NodeKind::Thread => cell_of(self.threads.slots@[i]),
            NodeKind::AddressSpace => cell_of(self.spaces.slots@[i]),
            NodeKind::MemoryObject => cell_of(self.memobjs.slots@[i]),
            NodeKind::Endpoint => cell_of(self.endpoints.slots@[i]),
            NodeKind::Device => cell_of(self.devices.slots@[i]),
        }
    }

    pub open spec fn books(self, kind: NodeKind) -> Books {
        match kind {
            NodeKind::Root => self.roots.books(),
            NodeKind::Cpu => self.cpus.books(),
            NodeKind::Process => self.processes.books(),
            NodeKind::Thread => self.threads.books(),
            NodeKind::AddressSpace => self.spaces.books(),
            NodeKind::MemoryObject => self.memobjs.books(),
            NodeKind::Endpoint => self.endpoints.books(),
            NodeKind::Device => self.devices.books(),
        }
    }

    /// An arena's free-list head, first unused index, and counts.
    pub open spec fn counters(self, kind: NodeKind) -> (u32, u32, u32, u32) {
        let b = self.books(kind);
        (b.free_head, b.bump, b.live, b.retired)
    }

    /// The slot `idx` of this kind's arena is live at this generation.
    pub open spec fn names(self, kind: NodeKind, idx: u32, generation: u32) -> bool {
        &&& idx < Self::cap(kind)
        &&& crate::arena::is_odd(generation)
        &&& self.cell(kind, idx as int).generation == generation
    }

    pub open spec fn spec_live(self, id: NodeId) -> bool {
        id.kind() matches Some(k) && self.names(k, id.idx(), id.generation())
    }

    /// The slot an id points into.
    pub open spec fn cell_at(self, id: NodeId) -> Cell {
        self.cell(id.kind()->Some_0, id.idx() as int)
    }

    pub open spec fn hdr(self, id: NodeId) -> NodeHeader {
        self.cell_at(id).hdr
    }

    pub open spec fn edge_live(self, e: u32) -> bool {
        e < MAX_EDGES && self.edges.slots@[e as int].spec_is_live()
    }

    pub open spec fn view(self) -> GraphView {
        GraphView {
            nodes: Map::new(
                |id: NodeId| self.spec_live(id),
                |id: NodeId|
                    NodeView {
                        body: self.cell_at(id).body,
                        owner: self.hdr(id).owner,
                        flags: self.hdr(id).flags,
                        next_dying: self.hdr(id).next_dying,
                    },
            ),
            edges: Map::new(
                |e: u32| self.edge_live(e),
                |e: u32| edge_view(self.edges.slots@[e as int]),
            ),
            lists: Map::new(
                |key: ListKey| self.spec_live(key.0),
                |key: ListKey|
                    self.edges.list(self.hdr(key.0).spec_head(key.1, key.2), key.1),
            ),
            seq: self.seq as nat,
            dying_head: self.dying_head,
            root_id: self.root_id,
            node_stock: Map::new(|k: NodeKind| true, |k: NodeKind| self.books(k).stock()),
            edge_stock: self.edges.books().stock(),
        }
    }

    /// Every list head starts a ring of links.
    pub open spec fn rings_ok(self) -> bool {
        forall|id: NodeId, d: Dir, k: EdgeKind|
            self.spec_live(id) ==> #[trigger] self.edges.is_ring(self.hdr(id).spec_head(d, k), d)
    }

    /// The arenas' own books are in order.
    pub open spec fn arenas_ok(self) -> bool {
        &&& forall|k: NodeKind| #[trigger] self.books(k).wf()
        &&& self.edges.wf()
    }

    /// A live node's header names the node's kind.
    pub open spec fn headers_ok(self) -> bool {
        forall|id: NodeId| #[trigger]
            self.spec_live(id) ==> self.hdr(id).kind == id.kind_raw()
    }

    /// A live edge's kind is a kind.
    pub open spec fn edge_kinds_ok(self) -> bool {
        forall|e: u32| #[trigger]
            self.edge_live(e) ==> self.edges.slots@[e as int].spec_edge_kind() is Some
    }

    /// The memory holds a graph.
    pub open spec fn wf(self) -> bool {
        &&& self.arenas_ok()
        &&& self.headers_ok()
        &&& self.edge_kinds_ok()
        &&& self.rings_ok()
        &&& self@.wf()
    }

    /// The memory holds a graph, whatever the bodies claim.
    pub open spec fn threaded(self) -> bool {
        &&& self.arenas_ok()
        &&& self.headers_ok()
        &&& self.edge_kinds_ok()
        &&& self.rings_ok()
        &&& self@.threaded()
    }

    // ------------------------------------------------------------- frames ---

    /// Everything outside the node arenas is as it was.
    pub open spec fn same_outside_nodes(self, o: Graph) -> bool {
        &&& self.edges == o.edges
        &&& self.seq == o.seq
        &&& self.dying_head == o.dying_head
        &&& self.root_id == o.root_id
    }

    /// One slot was rewritten, generation and free-list link kept.
    pub open spec fn cell_rewritten(self, o: Graph, kind: NodeKind, idx: int, c: Cell) -> bool {
        &&& self.same_outside_nodes(o)
        &&& c.generation == o.cell(kind, idx).generation
        &&& c.next_free == o.cell(kind, idx).next_free
        &&& forall|k: NodeKind| #[trigger] self.counters(k) == o.counters(k)
        &&& forall|k: NodeKind, i: int|
            0 <= i < Self::cap(k) ==> #[trigger] self.cell(k, i) == if k == kind && i == idx {
                c
            } else {
                o.cell(k, i)
            }
    }

    /// Only the header of one node differs.
    pub open spec fn hdr_rewritten(self, o: Graph, id: NodeId, h: NodeHeader) -> bool {
        self.cell_rewritten(
            o,
            id.kind()->Some_0,
            id.idx() as int,
            Cell { hdr: h, ..o.cell_at(id) },
        )
    }

    /// Only the body of one node differs.
    pub open spec fn body_rewritten(self, o: Graph, id: NodeId, body: Body) -> bool {
        self.cell_rewritten(
            o,
            id.kind()->Some_0,
            id.idx() as int,
            Cell { body, ..o.cell_at(id) },
        )
    }

    // ------------------------------------------------------------ headers ---

    /// Type-erased header lookup. The kind lives in the id, so this is a jump
    /// table over eight arenas, not a search.
    pub fn header(&self, id: NodeId) -> (r: Option<&NodeHeader>)
        ensures
            r is Some <==> self.spec_live(id),
            r matches Some(h) ==> *h == self.hdr(id),
    {
        let i: u32 = id.idx();
        let g: u32 = id.generation();
        match id.kind() {
            None => None,
            Some(NodeKind::Root) => match self.roots.get(i, g) {
                Some(s) => Some(&s.hdr),
                None => None,
            },
            Some(NodeKind::Cpu) => match self.cpus.get(i, g) {
                Some(s) => Some(&s.hdr),
                None => None,
            },
            Some(NodeKind::Process) => match self.processes.get(i, g) {
                Some(s) => Some(&s.hdr),
                None => None,
            },
            Some(NodeKind::Thread) => match self.threads.get(i, g) {
                Some(s) => Some(&s.hdr),
                None => None,
            },
            Some(NodeKind::AddressSpace) => match self.spaces.get(i, g) {
                Some(s) => Some(&s.hdr),
                None => None,
            },
            Some(NodeKind::MemoryObject) => match self.memobjs.get(i, g) {
                Some(s) => Some(&s.hdr),
                None => None,
            },
            Some(NodeKind::Endpoint) => match self.endpoints.get(i, g) {
                Some(s) => Some(&s.hdr),
                None => None,
            },
            Some(NodeKind::Device) => match self.devices.get(i, g) {
                Some(s) => Some(&s.hdr),
                None => None,
            },
        }
    }

    pub fn header_mut(&mut self, id: NodeId) -> (r: Option<&mut NodeHeader>)
        ensures
            r is Some <==> old(self).spec_live(id),
            match r {
                Some(h) => *h == old(self).hdr(id) && final(self).hdr_rewritten(
                    *old(self),
                    id,
                    *final(h),
                ),
                None => *final(self) == *old(self),
            },
    {
        let i: u32 = id.idx();
        let g: u32 = id.generation();
        match id.kind() {
            None => None,
            Some(NodeKind::Root) => match self.roots.get_mut(i, g) {
                Some(s) => Some(&mut s.hdr),
                None => None,
            },
            Some(NodeKind::Cpu) => match self.cpus.get_mut(i, g) {
                Some(s) => Some(&mut s.hdr),
                None => None,
            },
            Some(NodeKind::Process) => match self.processes.get_mut(i, g) {
                Some(s) => Some(&mut s.hdr),
                None => None,
            },
            Some(NodeKind::Thread) => match self.threads.get_mut(i, g) {
                Some(s) => Some(&mut s.hdr),
                None => None,
            },
            Some(NodeKind::AddressSpace) => match self.spaces.get_mut(i, g) {
                Some(s) => Some(&mut s.hdr),
                None => None,
            },
            Some(NodeKind::MemoryObject) => match self.memobjs.get_mut(i, g) {
                Some(s) => Some(&mut s.hdr),
                None => None,
            },
            Some(NodeKind::Endpoint) => match self.endpoints.get_mut(i, g) {
                Some(s) => Some(&mut s.hdr),
                None => None,
            },
            Some(NodeKind::Device) => match self.devices.get_mut(i, g) {
                Some(s) => Some(&mut s.hdr),
                None => None,
            },
        }
    }
}

// ---------------------------------------------------------- frame lemmas ---

/// Two live ids that point into the same slot are the same id.
pub proof fn same_slot_same_id(g: Graph, a: NodeId, b: NodeId)
    requires
        g.spec_live(a),
        g.spec_live(b),
        a.kind() == b.kind(),
        a.idx() == b.idx(),
    ensures
        a == b,
{
    crate::id::node_id_parts(a);
    crate::id::node_id_parts(b);
}

/// An arena's books depend only on its counters and on each slot's generation
/// and free-list link.
pub proof fn same_books(g: Graph, o: Graph, k: NodeKind)
    requires
        g.counters(k) == o.counters(k),
        forall|i: int|
            0 <= i < Graph::cap(k) ==> (#[trigger] g.cell(k, i)).generation == o.cell(
                k,
                i,
            ).generation && g.cell(k, i).next_free == o.cell(k, i).next_free,
    ensures
        g.books(k) == o.books(k),
{
    assert forall|i: int| 0 <= i < Graph::cap(k) implies g.books(k).gens[i] == o.books(k).gens[i]
        && g.books(k).next[i] == o.books(k).next[i] by {
        assert(g.cell(k, i).generation == o.cell(k, i).generation);
    }
    assert(g.books(k).gens =~= o.books(k).gens);
    assert(g.books(k).next =~= o.books(k).next);
}

/// Rewriting one slot keeps the arenas in order and every id as live or as
/// dead as it was.
pub proof fn cell_rewrite_keeps(g: Graph, o: Graph, kind: NodeKind, idx: int, c: Cell)
    requires
        o.arenas_ok(),
        g.cell_rewritten(o, kind, idx, c),
    ensures
        g.arenas_ok(),
        forall|k: NodeKind| #[trigger] g.books(k) == o.books(k),
        forall|id: NodeId| #[trigger] g.spec_live(id) == o.spec_live(id),
        forall|e: u32| #[trigger] g.edge_live(e) == o.edge_live(e),
{
    assert forall|k: NodeKind| #[trigger] g.books(k) == o.books(k) by {
        assert(g.counters(k) == o.counters(k));
        same_books(g, o, k);
    }
    assert forall|id: NodeId| #[trigger] g.spec_live(id) == o.spec_live(id) by {
        if let Some(k) = id.kind() {
            if id.idx() < Graph::cap(k) {
                assert(g.cell(k, id.idx() as int).generation == o.cell(
                    k,
                    id.idx() as int,
                ).generation);
            }
        }
    }
}

/// Rewriting one node's body rewrites it in the view, and nothing else.
pub proof fn body_rewrite_view(g: Graph, o: Graph, id: NodeId, body: Body)
    requires
        o.wf(),
        o.spec_live(id),
        g.body_rewritten(o, id, body),
    ensures
        g@ == o@.with_body(id, body),
        body.kind() == o.cell_at(id).body.kind() && body.bounded() ==> g.wf(),
{
    let k0 = id.kind()->Some_0;
    let c = Cell { body, ..o.cell_at(id) };
    cell_rewrite_keeps(g, o, k0, id.idx() as int, c);
    assert forall|n: NodeId| #[trigger] o.spec_live(n) implies g.hdr(n) == o.hdr(n)
        && g.cell_at(n).body == if n == id {
        body
    } else {
        o.cell_at(n).body
    } by {
        let k = n.kind()->Some_0;
        assert(g.cell(k, n.idx() as int) == if k == k0 && n.idx() == id.idx() {
            c
        } else {
            o.cell(k, n.idx() as int)
        });
        if k == k0 && n.idx() == id.idx() {
            same_slot_same_id(o, n, id);
        }
    }
    let v = g@;
    let w = o@.with_body(id, body);
    assert(v.nodes.dom() =~= w.nodes.dom());
    assert forall|n: NodeId| v.nodes.contains_key(n) implies v.nodes[n] == w.nodes[n] by {
        assert(o.spec_live(n));
    }
    assert(v.nodes =~= w.nodes);
    assert(v.edges =~= w.edges);
    assert(v.lists.dom() =~= w.lists.dom());
    assert forall|key: ListKey| v.lists.contains_key(key) implies v.lists[key] == w.lists[key] by {
        assert(o.spec_live(key.0));
    }
    assert(v.lists =~= w.lists);
    if body.kind() == o.cell_at(id).body.kind() && body.bounded() {
        assert(g.headers_ok()) by {
            assert forall|n: NodeId| #[trigger] g.spec_live(n) implies g.hdr(n).kind
                == n.kind_raw() by {
                assert(o.spec_live(n));
            }
        }
        assert(g.rings_ok()) by {
            assert forall|n: NodeId, d: Dir, k: EdgeKind|
                g.spec_live(n) implies #[trigger] g.edges.is_ring(g.hdr(n).spec_head(d, k), d) by {
                assert(o.spec_live(n));
                assert(o.edges.is_ring(o.hdr(n).spec_head(d, k), d));
            }
        }
        assert(g.edge_kinds_ok()) by {
            assert forall|e: u32| #[trigger]
                g.edge_live(e) implies g.edges.slots@[e as int].spec_edge_kind() is Some by {
                assert(o.edge_live(e));
            }
        }
        view_body_wf(o@, id, body);
    }
}

/// A body of the same kind, inside its tables, keeps the view well formed.
pub proof fn view_body_wf(v: GraphView, id: NodeId, body: Body)
    requires
        v.wf(),
        v.live(id),
        body.kind() == v.nodes[id].body.kind(),
        body.bounded(),
    ensures
        v.with_body(id, body).wf(),
{
    let w = v.with_body(id, body);
    assert forall|e: u32| #[trigger] w.edges.contains_key(e) implies w.edge_ok(e) by {
        assert(v.edges.contains_key(e));
        assert(v.edge_ok(e));
    }
    assert forall|key: ListKey| #[trigger] w.lists.contains_key(key) implies w.list_ok(key) by {
        assert(v.lists.contains_key(key));
        assert(v.list_ok(key));
    }
    assert forall|n: NodeId| #[trigger] w.nodes.contains_key(n) implies w.node_ok(n) by {
        assert(v.nodes.contains_key(n));
        assert(v.node_ok(n));
        assert(v.node_ok(id));
    }
}

/// Changing a header's owner, flags or reaper link, and no list head, changes
/// just that in the view.
pub proof fn header_rewrite_view(g: Graph, o: Graph, id: NodeId, h: NodeHeader)
    requires
        o.wf(),
        o.spec_live(id),
        g.hdr_rewritten(o, id, h),
        h.kind == o.hdr(id).kind,
        h.out_head == o.hdr(id).out_head,
        h.in_head == o.hdr(id).in_head,
    ensures
        g@ == (GraphView {
            nodes: o@.nodes.insert(
                id,
                NodeView {
                    body: o.cell_at(id).body,
                    owner: h.owner,
                    flags: h.flags,
                    next_dying: h.next_dying,
                },
            ),
            ..o@
        }),
        g.wf(),
{
    let k0 = id.kind()->Some_0;
    let c = Cell { hdr: h, ..o.cell_at(id) };
    cell_rewrite_keeps(g, o, k0, id.idx() as int, c);
    assert forall|n: NodeId| #[trigger] o.spec_live(n) implies g.hdr(n) == (if n == id {
        h
    } else {
        o.hdr(n)
    }) && g.cell_at(n).body == o.cell_at(n).body by {
        let k = n.kind()->Some_0;
        assert(g.cell(k, n.idx() as int) == if k == k0 && n.idx() == id.idx() {
            c
        } else {
            o.cell(k, n.idx() as int)
        });
        if k == k0 && n.idx() == id.idx() {
            same_slot_same_id(o, n, id);
        }
    }
    let v = g@;
    let w = GraphView {
        nodes: o@.nodes.insert(
            id,
            NodeView {
                body: o.cell_at(id).body,
                owner: h.owner,
                flags: h.flags,
                next_dying: h.next_dying,
            },
        ),
        ..o@
    };
    assert(v.nodes.dom() =~= w.nodes.dom());
    assert forall|n: NodeId| v.nodes.contains_key(n) implies v.nodes[n] == w.nodes[n] by {
        assert(o.spec_live(n));
    }
    assert(v.nodes =~= w.nodes);
    assert(v.edges =~= w.edges);
    assert(v.lists.dom() =~= w.lists.dom());
    assert forall|key: ListKey| v.lists.contains_key(key) implies v.lists[key] == w.lists[key] by {
        assert(o.spec_live(key.0));
    }
    assert(v.lists =~= w.lists);
    assert(g.headers_ok()) by {
        assert forall|n: NodeId| #[trigger] g.spec_live(n) implies g.hdr(n).kind
            == n.kind_raw() by {
            assert(o.spec_live(n));
        }
    }
    assert(g.rings_ok()) by {
        assert forall|n: NodeId, d: Dir, k: EdgeKind|
            g.spec_live(n) implies #[trigger] g.edges.is_ring(g.hdr(n).spec_head(d, k), d) by {
            assert(o.spec_live(n));
            assert(o.edges.is_ring(o.hdr(n).spec_head(d, k), d));
        }
    }
    assert(g.edge_kinds_ok()) by {
        assert forall|e: u32| #[trigger]
            g.edge_live(e) implies g.edges.slots@[e as int].spec_edge_kind() is Some by {
            assert(o.edge_live(e));
        }
    }
    assert forall|e: u32| #[trigger] w.edges.contains_key(e) implies w.edge_ok(e) by {
        assert(o@.edges.contains_key(e));
        assert(o@.edge_ok(e));
    }
    assert forall|key: ListKey| #[trigger] w.lists.contains_key(key) implies w.list_ok(key) by {
        assert(o@.lists.contains_key(key));
        assert(o@.list_ok(key));
    }
    assert forall|n: NodeId| #[trigger] w.nodes.contains_key(n) implies w.node_ok(n) by {
        assert(o@.nodes.contains_key(n));
        assert(o@.node_ok(n));
        assert(o@.node_ok(id));
    }
}

} // verus!

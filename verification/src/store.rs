//! Typed access to the node arenas, and the graph before anything is in it.

use vstd::prelude::*;

use crate::arena::Stock;
use crate::body::{
    AddressSpace, Body, Cpu, Device, Endpoint, MemoryObject, NodeBody, Process, Root, Thread,
};
use crate::edge::Edge;
use crate::graph::{cell_of, Cell, Graph, Ref};
use crate::id::{EdgeId, NodeId, NodeKind};
use crate::limits::MAX_EDGES;
use crate::slab::{EdgeSlab, NodeHeader, Slab, Slot};
use crate::view::GraphView;

verus! {

/// Per-body-type access to the right arena. Implemented once per node kind; it
/// is what lets `create_*` and `body` be generic without any dynamic dispatch.
pub trait Store: NodeBody {
    fn slot(g: &Graph, idx: u32, generation: u32) -> (r: Option<&Slot<Self>>)
        ensures
            r is Some <==> g.names(Self::spec_kind(), idx, generation),
            r matches Some(s) ==> cell_of(*s) == g.cell(Self::spec_kind(), idx as int),
    ;

    fn slot_mut(g: &mut Graph, idx: u32, generation: u32) -> (r: Option<&mut Slot<Self>>)
        ensures
            r is Some <==> old(g).names(Self::spec_kind(), idx, generation),
            match r {
                Some(s) => {
                    &&& cell_of(*s) == old(g).cell(Self::spec_kind(), idx as int)
                    &&& final(s).generation == s.generation && final(s).next_free == s.next_free
                        ==> final(g).cell_rewritten(
                        *old(g),
                        Self::spec_kind(),
                        idx as int,
                        cell_of(*final(s)),
                    )
                },
                None => *final(g) == *old(g),
            },
    ;

    /// Take a slot for a new node, if the arena has one.
    fn arena_alloc(g: &mut Graph, body: Self) -> (r: Option<(u32, u32)>)
        requires
            old(g).arenas_ok(),
        ensures
            final(g).arenas_ok(),
            old(g).books(Self::spec_kind()).full() ==> r is None && *final(g) == *old(g),
            !old(g).books(Self::spec_kind()).full() ==> ({
                let i = old(g).books(Self::spec_kind()).next_index();
                let gen = (old(g).cell(Self::spec_kind(), i as int).generation + 1) as u32;
                &&& r == Some((i, gen))
                &&& final(g).slot_taken(*old(g), Self::spec_kind(), i, gen, body.erase())
            }),
    ;
}

impl Graph {
    /// One free slot has become a live one with no edges.
    pub open spec fn slot_taken(
        self,
        o: Graph,
        kind: NodeKind,
        idx: u32,
        generation: u32,
        body: Body,
    ) -> bool {
        &&& self.same_outside_nodes(o)
        &&& idx < Self::cap(kind)
        &&& crate::arena::is_odd(generation)
        &&& generation == o.cell(kind, idx as int).generation + 1
        &&& self.books(kind) == o.books(kind).after_alloc()
        &&& forall|k: NodeKind| k != kind ==> #[trigger] self.books(k) == o.books(k)
        &&& forall|k: NodeKind, i: int|
            0 <= i < Self::cap(k) ==> #[trigger] self.cell(k, i) == if k == kind && i == idx {
                Cell { generation, next_free: 0, hdr: NodeHeader::blank(kind.spec_code()), body }
            } else {
                o.cell(k, i)
            }
    }
}

impl Store for Root {
    fn slot(g: &Graph, idx: u32, generation: u32) -> (r: Option<&Slot<Root>>) {
        g.roots.get(idx, generation)
    }

    fn slot_mut(g: &mut Graph, idx: u32, generation: u32) -> (r: Option<&mut Slot<Root>>) {
        g.roots.get_mut(idx, generation)
    }

    fn arena_alloc(g: &mut Graph, body: Root) -> (r: Option<(u32, u32)>) {
        assert(g.books(NodeKind::Root).wf());
        let r = g.roots.allocate(body);
        proof {
            assert forall|k: NodeKind| #[trigger] g.books(k).wf() by {
                assert(old(g).books(k).wf());
            }
        }
        r
    }
}

impl Store for Cpu {
    fn slot(g: &Graph, idx: u32, generation: u32) -> (r: Option<&Slot<Cpu>>) {
        g.cpus.get(idx, generation)
    }

    fn slot_mut(g: &mut Graph, idx: u32, generation: u32) -> (r: Option<&mut Slot<Cpu>>) {
        g.cpus.get_mut(idx, generation)
    }

    fn arena_alloc(g: &mut Graph, body: Cpu) -> (r: Option<(u32, u32)>) {
        assert(g.books(NodeKind::Cpu).wf());
        let r = g.cpus.allocate(body);
        proof {
            assert forall|k: NodeKind| #[trigger] g.books(k).wf() by {
                assert(old(g).books(k).wf());
            }
        }
        r
    }
}

impl Store for Process {
    fn slot(g: &Graph, idx: u32, generation: u32) -> (r: Option<&Slot<Process>>) {
        g.processes.get(idx, generation)
    }

    fn slot_mut(g: &mut Graph, idx: u32, generation: u32) -> (r: Option<&mut Slot<Process>>) {
        g.processes.get_mut(idx, generation)
    }

    fn arena_alloc(g: &mut Graph, body: Process) -> (r: Option<(u32, u32)>) {
        assert(g.books(NodeKind::Process).wf());
        let r = g.processes.allocate(body);
        proof {
            assert forall|k: NodeKind| #[trigger] g.books(k).wf() by {
                assert(old(g).books(k).wf());
            }
        }
        r
    }
}

impl Store for Thread {
    fn slot(g: &Graph, idx: u32, generation: u32) -> (r: Option<&Slot<Thread>>) {
        g.threads.get(idx, generation)
    }

    fn slot_mut(g: &mut Graph, idx: u32, generation: u32) -> (r: Option<&mut Slot<Thread>>) {
        g.threads.get_mut(idx, generation)
    }

    fn arena_alloc(g: &mut Graph, body: Thread) -> (r: Option<(u32, u32)>) {
        assert(g.books(NodeKind::Thread).wf());
        let r = g.threads.allocate(body);
        proof {
            assert forall|k: NodeKind| #[trigger] g.books(k).wf() by {
                assert(old(g).books(k).wf());
            }
        }
        r
    }
}

impl Store for AddressSpace {
    fn slot(g: &Graph, idx: u32, generation: u32) -> (r: Option<&Slot<AddressSpace>>) {
        g.spaces.get(idx, generation)
    }

    fn slot_mut(g: &mut Graph, idx: u32, generation: u32) -> (r: Option<&mut Slot<AddressSpace>>) {
        g.spaces.get_mut(idx, generation)
    }

    fn arena_alloc(g: &mut Graph, body: AddressSpace) -> (r: Option<(u32, u32)>) {
        assert(g.books(NodeKind::AddressSpace).wf());
        let r = g.spaces.allocate(body);
        proof {
            assert forall|k: NodeKind| #[trigger] g.books(k).wf() by {
                assert(old(g).books(k).wf());
            }
        }
        r
    }
}

impl Store for MemoryObject {
    fn slot(g: &Graph, idx: u32, generation: u32) -> (r: Option<&Slot<MemoryObject>>) {
        g.memobjs.get(idx, generation)
    }

    fn slot_mut(g: &mut Graph, idx: u32, generation: u32) -> (r: Option<&mut Slot<MemoryObject>>) {
        g.memobjs.get_mut(idx, generation)
    }

    fn arena_alloc(g: &mut Graph, body: MemoryObject) -> (r: Option<(u32, u32)>) {
        assert(g.books(NodeKind::MemoryObject).wf());
        let r = g.memobjs.allocate(body);
        proof {
            assert forall|k: NodeKind| #[trigger] g.books(k).wf() by {
                assert(old(g).books(k).wf());
            }
        }
        r
    }
}

impl Store for Endpoint {
    fn slot(g: &Graph, idx: u32, generation: u32) -> (r: Option<&Slot<Endpoint>>) {
        g.endpoints.get(idx, generation)
    }

    fn slot_mut(g: &mut Graph, idx: u32, generation: u32) -> (r: Option<&mut Slot<Endpoint>>) {
        g.endpoints.get_mut(idx, generation)
    }

    fn arena_alloc(g: &mut Graph, body: Endpoint) -> (r: Option<(u32, u32)>) {
        assert(g.books(NodeKind::Endpoint).wf());
        let r = g.endpoints.allocate(body);
        proof {
            assert forall|k: NodeKind| #[trigger] g.books(k).wf() by {
                assert(old(g).books(k).wf());
            }
        }
        r
    }
}

impl Store for Device {
    fn slot(g: &Graph, idx: u32, generation: u32) -> (r: Option<&Slot<Device>>) {
        g.devices.get(idx, generation)
    }

    fn slot_mut(g: &mut Graph, idx: u32, generation: u32) -> (r: Option<&mut Slot<Device>>) {
        g.devices.get_mut(idx, generation)
    }

    fn arena_alloc(g: &mut Graph, body: Device) -> (r: Option<(u32, u32)>) {
        assert(g.books(NodeKind::Device).wf());
        let r = g.devices.allocate(body);
        proof {
            assert forall|k: NodeKind| #[trigger] g.books(k).wf() by {
                assert(old(g).books(k).wf());
            }
        }
        r
    }
}

impl Graph {
    /// The view of a graph in which nothing has ever been.
    pub open spec fn nothing() -> GraphView {
        GraphView {
            nodes: Map::empty(),
            edges: Map::empty(),
            lists: Map::empty(),
            seq: 0,
            dying_head: NodeId(0),
            root_id: NodeId(0),
            node_stock: Map::new(
                |k: NodeKind| true,
                |k: NodeKind| Stock::blank(Self::cap(k) as nat, 0),
            ),
            edge_stock: Stock::blank(MAX_EDGES as nat, 1),
        }
    }

    /// The graph before anything is in it: every byte of it zero.
    pub fn empty() -> (r: Graph)
        ensures
            r.wf(),
            r@ == Self::nothing(),
            r@.root_id.is_null(),
            r@.dying_head.is_null(),
    {
        let r = Graph {
            roots: Slab::zero(),
            cpus: Slab::zero(),
            processes: Slab::zero(),
            threads: Slab::zero(),
            spaces: Slab::zero(),
            memobjs: Slab::zero(),
            endpoints: Slab::zero(),
            devices: Slab::zero(),
            edges: EdgeSlab::zero(),
            seq: 0,
            dying_head: NodeId::null(),
            root_id: NodeId::null(),
        };
        proof {
            assert forall|k: NodeKind| #[trigger] r.books(k).wf() by {}
            assert forall|id: NodeId| !#[trigger] r.spec_live(id) by {}
            assert forall|e: u32| !#[trigger] r.edge_live(e) by {}
            assert(r@.nodes =~= Map::empty());
            assert(r@.edges =~= Map::empty());
            assert(r@.lists =~= Map::empty());
            assert(r@.node_stock =~= Self::nothing().node_stock);
            assert(r.root_id.is_null());
        }
        r
    }

    pub fn seq(&self) -> (r: u64)
        ensures
            r == self@.seq,
    {
        self.seq
    }

    pub fn edge_count(&self) -> (r: u32)
        requires
            self.wf(),
        ensures
            r == crate::arena::count_live(self.edges.books().gens),
    {
        self.edges.live_count()
    }

    /// How many live nodes there are of each kind, added up.
    pub open spec fn live_nodes_total(self) -> nat {
        crate::arena::count_live(self.books(NodeKind::Root).gens) + crate::arena::count_live(
            self.books(NodeKind::Cpu).gens,
        ) + crate::arena::count_live(self.books(NodeKind::Process).gens)
            + crate::arena::count_live(self.books(NodeKind::Thread).gens)
            + crate::arena::count_live(self.books(NodeKind::AddressSpace).gens)
            + crate::arena::count_live(self.books(NodeKind::MemoryObject).gens)
            + crate::arena::count_live(self.books(NodeKind::Endpoint).gens)
            + crate::arena::count_live(self.books(NodeKind::Device).gens)
    }

    pub fn node_count(&self) -> (r: u32)
        requires
            self.arenas_ok(),
        ensures
            r == self.live_nodes_total(),
    {
        proof {
            assert forall|k: NodeKind| #[trigger] self.books(k).wf() && self.books(k).live
                <= self.books(k).gens.len() by {
                assert(self.books(k).wf());
                crate::arena::count_live_bound(self.books(k).gens);
            }
            assert(self.books(NodeKind::Root).wf());
            assert(self.books(NodeKind::Cpu).wf());
            assert(self.books(NodeKind::Process).wf());
            assert(self.books(NodeKind::Thread).wf());
            assert(self.books(NodeKind::AddressSpace).wf());
            assert(self.books(NodeKind::MemoryObject).wf());
            assert(self.books(NodeKind::Endpoint).wf());
            assert(self.books(NodeKind::Device).wf());
        }
        self.roots.live_count() + self.cpus.live_count() + self.processes.live_count()
            + self.threads.live_count() + self.spaces.live_count() + self.memobjs.live_count()
            + self.endpoints.live_count() + self.devices.live_count()
    }

    pub fn has_pending_reap(&self) -> (r: bool)
        ensures
            r == !self@.dying_head.is_null(),
    {
        !self.dying_head.is_null()
    }

    pub fn is_live(&self, id: NodeId) -> (r: bool)
        ensures
            r == self@.live(id),
    {
        self.header(id).is_some()
    }

    pub fn is_dying(&self, id: NodeId) -> (r: bool)
        ensures
            r == (self@.live(id) && self@.dying(id)),
    {
        match self.header(id) {
            Some(h) => h.is_dying(),
            None => false,
        }
    }

    /// The owner of a node, read from the hot-hop cache rather than the edge.
    pub fn owner(&self, id: NodeId) -> (r: NodeId)
        ensures
            r == if self@.live(id) {
                self@.nodes[id].owner
            } else {
                NodeId(0)
            },
    {
        match self.header(id) {
            Some(h) => h.owner,
            None => NodeId::null(),
        }
    }

    // -------------------------------------------------------- node bodies ---

    pub fn body<B: Store>(&self, r: Ref<B>) -> (res: Option<&B>)
        ensures
            res is Some <==> self@.live(r.id()),
            res matches Some(b) ==> self@.nodes[r.id()].body == b.erase(),
    {
        let id = r.id();
        match B::slot(self, id.idx(), id.generation()) {
            Some(s) => Some(&s.body),
            None => None,
        }
    }

    /// Write access to a body. The caller's changes are the only difference.
    pub fn body_mut<B: Store>(&mut self, r: Ref<B>) -> (res: Option<&mut B>)
        ensures
            r.id().kind() == Some(B::spec_kind()),
            res is Some <==> old(self)@.live(r.id()),
            match res {
                Some(b) => {
                    &&& b.erase() == old(self)@.nodes[r.id()].body
                    &&& final(self).body_rewritten(*old(self), r.id(), (*final(b)).erase())
                },
                None => *final(self) == *old(self),
            },
    {
        let id = r.id();
        match B::slot_mut(self, id.idx(), id.generation()) {
            Some(s) => Some(&mut s.body),
            None => None,
        }
    }

    /// Recover a typed reference from a raw id, checking the kind at runtime.
    /// This is the boundary where syscall arguments become typed.
    pub fn typed<B: Store>(&self, id: NodeId) -> (r: Option<Ref<B>>)
        ensures
            r is Some <==> id.kind() == Some(B::spec_kind()) && self@.live(id),
            r matches Some(x) ==> x.id() == id,
    {
        match id.kind() {
            None => None,
            Some(k) => {
                if k.code() != B::kind().code() {
                    return None;
                }
                match B::slot(self, id.idx(), id.generation()) {
                    Some(_) => Some(Ref::from_raw(id)),
                    None => None,
                }
            },
        }
    }

    // -------------------------------------------------------------- edges ---

    pub fn edge(&self, id: EdgeId) -> (r: Option<&Edge>)
        ensures
            r is Some <==> self@.has_edge(id),
            r matches Some(e) ==> self@.edges[id.idx()] == crate::graph::edge_view(*e) && *e
                == self.edges.slots@[id.idx() as int],
    {
        self.edges.get(id.idx(), id.generation())
    }

    /// The generation an edge slot is at, live or not. Zero past the arena.
    pub fn edge_generation(&self, idx: u32) -> (r: u32)
        ensures
            r == if idx < MAX_EDGES {
                self.edges.slots@[idx as int].generation
            } else {
                0
            },
    {
        if (idx as usize) < MAX_EDGES {
            self.edges.at(idx).generation
        } else {
            0
        }
    }
}

} // verus!

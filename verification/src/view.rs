//! The graph as mathematics: which nodes and edges exist, and the order of
//! every adjacency list, with no arenas, links or indices into memory.
//!
//! Operations on the arena-backed graph are stated as steps on this view.

use vstd::prelude::*;

use crate::arena::Stock;
use crate::body::{AddressSpace, Body, Cpu, MemoryObject, Process, Root, Thread, ThreadState};
use crate::edge::{Dir, EdgeAttr, HoldsAttr, MapsAttr};
use crate::id::{EdgeId, EdgeKind, NodeId, NodeKind};
use crate::limits::{HANDLE_SLOTS, MAX_EDGES, MAX_MAPPINGS_PER_SPACE};
use crate::slab::FLAG_DYING;

verus! {

pub struct NodeView {
    pub body: Body,
    pub owner: NodeId,
    pub flags: u8,
    pub next_dying: NodeId,
}

impl NodeView {
    pub open spec fn dying(self) -> bool {
        self.flags & FLAG_DYING != 0
    }
}

#[verifier::ext_equal]
pub struct EdgeView {
    pub src: NodeId,
    pub dst: NodeId,
    pub kind: EdgeKind,
    pub data: Seq<u8>,
    pub generation: u32,
}

impl EdgeView {
    /// The endpoint whose list the edge is on, in this direction.
    pub open spec fn endpoint(self, dir: Dir) -> NodeId {
        match dir {
            Dir::Out => self.src,
            Dir::In => self.dst,
        }
    }
}

/// Names one adjacency list: a node, a direction, and an edge kind.
pub type ListKey = (NodeId, Dir, EdgeKind);

#[verifier::ext_equal]
pub struct GraphView {
    pub nodes: Map<NodeId, NodeView>,
    pub edges: Map<u32, EdgeView>,
    pub lists: Map<ListKey, Seq<u32>>,
    pub seq: nat,
    pub dying_head: NodeId,
    pub root_id: NodeId,
    /// What each kind's arena has to give, and what the edges' has.
    pub node_stock: Map<NodeKind, Stock>,
    pub edge_stock: Stock,
}

/// The array with the given contents.
pub open spec fn array_of<const N: usize>(s: Seq<u32>) -> [u32; N] {
    choose|a: [u32; N]| #[trigger] a@ == s
}

pub proof fn array_of_view<const N: usize>(a: [u32; N])
    ensures
        array_of::<N>(a@) == a,
{
    let other = array_of::<N>(a@);
    assert(a@ == a@);
    assert(other@ == a@);
    assert forall|i: int| 0 <= i < N implies other[i] == a[i] by {
        assert(other@[i] == a@[i]);
    }
    assert(other =~= a);
}

/// Any contents of the right length are some array's contents.
pub proof fn array_of_exists<const N: usize>(s: Seq<u32>)
    requires
        s.len() == N,
    ensures
        array_of::<N>(s)@ == s,
{
    array_filled::<N>(vstd::array::spec_array_fill_for_copy_type::<u32, N>(0), s, 0);
}

proof fn array_filled<const N: usize>(a: [u32; N], s: Seq<u32>, i: int)
    requires
        s.len() == N,
        0 <= i <= N,
        forall|j: int| 0 <= j < i ==> a@[j] == s[j],
    ensures
        array_of::<N>(s)@ == s,
    decreases N - i,
{
    if i == N {
        assert(a@ =~= s);
        assert(a@ == s);
    } else {
        let b = vstd::array::spec_array_update(a, i, s[i]);
        assert(b@ == a@.update(i, s[i]));
        array_filled::<N>(b, s, i + 1);
    }
}

/// `i` is the first position of `e` in `s`.
pub open spec fn is_first(s: Seq<u32>, e: u32, i: int) -> bool {
    &&& 0 <= i < s.len()
    &&& s[i] == e
    &&& forall|j: int| 0 <= j < i ==> s[j] != e
}

/// The first position of `e` in `s`.
pub open spec fn first_at(s: Seq<u32>, e: u32) -> int {
    choose|i: int| is_first(s, e, i)
}

// ------------------------------------------------------------ body updates ---

impl Process {
    pub open spec fn with_handle(self, slot: int, e: u32) -> Process {
        Process { handles: array_of::<HANDLE_SLOTS>(self.handles@.update(slot, e)), ..self }
    }

    /// The handle table with `e` taken out of `slot`, if it was there.
    pub open spec fn without_handle(self, slot: u32, e: u32) -> Process {
        if slot < HANDLE_SLOTS && self.handles@[slot as int] == e {
            self.with_handle(slot as int, 0)
        } else {
            self
        }
    }
}

impl AddressSpace {
    /// The indexed mappings, in table order.
    pub open spec fn indexed(self) -> Seq<u32> {
        self.ranges@.subrange(0, self.mapping_count as int)
    }

    /// The index with `e` inserted at `pos`.
    pub open spec fn with_range(self, pos: int, e: u32) -> AddressSpace {
        AddressSpace {
            mapping_count: (self.mapping_count + 1) as u32,
            ranges: array_of::<MAX_MAPPINGS_PER_SPACE>(
                self.ranges@.remove(self.mapping_count as int).insert(pos, e),
            ),
            ..self
        }
    }

    /// The index with `e` taken out, if it was there.
    pub open spec fn without_range(self, e: u32) -> AddressSpace {
        if self.indexed().contains(e) {
            AddressSpace {
                mapping_count: (self.mapping_count - 1) as u32,
                ranges: array_of::<MAX_MAPPINGS_PER_SPACE>(
                    self.ranges@.remove(first_at(self.indexed(), e)).insert(
                        self.mapping_count - 1,
                        0,
                    ),
                ),
                ..self
            }
        } else {
            self
        }
    }
}

impl MemoryObject {
    pub open spec fn unmapped_once(self) -> MemoryObject {
        MemoryObject {
            map_count: if self.map_count == 0 {
                0
            } else {
                (self.map_count - 1) as u32
            },
            ..self
        }
    }
}

impl Thread {
    /// A thread whose wait was torn down: not blocked any more, and told so.
    pub open spec fn wait_torn_down(self) -> Thread {
        if self.state == ThreadState::Blocked {
            Thread { state: ThreadState::Inert, wait_aborted: 1, ..self }
        } else {
            self
        }
    }
}

impl GraphView {
    // --------------------------------------------------------- observations ---

    pub open spec fn live(self, id: NodeId) -> bool {
        self.nodes.contains_key(id)
    }

    pub open spec fn dying(self, id: NodeId) -> bool {
        self.nodes[id].dying()
    }

    pub open spec fn list(self, id: NodeId, dir: Dir, kind: EdgeKind) -> Seq<u32> {
        self.lists[(id, dir, kind)]
    }

    pub open spec fn process(self, id: NodeId) -> Process {
        self.nodes[id].body->Process_0
    }

    pub open spec fn thread(self, id: NodeId) -> Thread {
        self.nodes[id].body->Thread_0
    }

    pub open spec fn space(self, id: NodeId) -> AddressSpace {
        self.nodes[id].body->AddressSpace_0
    }

    pub open spec fn memobj(self, id: NodeId) -> MemoryObject {
        self.nodes[id].body->MemoryObject_0
    }

    pub open spec fn cpu(self, id: NodeId) -> Cpu {
        self.nodes[id].body->Cpu_0
    }

    pub open spec fn holds(self, e: u32) -> HoldsAttr {
        HoldsAttr::spec_decode(self.edges[e].data)
    }

    pub open spec fn maps(self, e: u32) -> MapsAttr {
        MapsAttr::spec_decode(self.edges[e].data)
    }

    /// The edge an id names is live: the slot holds that very edge.
    pub open spec fn has_edge(self, id: EdgeId) -> bool {
        self.edges.contains_key(id.idx()) && self.edges[id.idx()].generation == id.generation()
    }

    /// The id of a live edge.
    pub open spec fn edge_id(self, e: u32) -> EdgeId {
        EdgeId::spec_new(e, self.edges[e].generation)
    }

    /// The id the next edge will get.
    pub open spec fn next_edge(self) -> EdgeId {
        EdgeId::spec_new(self.edge_stock.next_index(), self.edge_stock.next_generation())
    }

    /// The id the next node of a kind will get.
    pub open spec fn next_node(self, kind: NodeKind) -> NodeId {
        let s = self.node_stock[kind];
        NodeId::spec_new(kind, s.next_index(), s.next_generation())
    }

    /// The generation a slot of a kind's arena is at.
    pub open spec fn node_age(self, kind: NodeKind, i: int) -> u32 {
        self.node_stock[kind].age(i)
    }

    /// The generation an edge slot is at.
    pub open spec fn edge_age(self, i: int) -> u32 {
        self.edge_stock.age(i)
    }

    /// No slot has gone back to an earlier generation since `o`, which is what
    /// makes an id good for one object only.
    pub open spec fn since(self, o: GraphView) -> bool {
        &&& forall|k: NodeKind, i: int| #[trigger] o.node_age(k, i) <= self.node_age(k, i)
        &&& forall|i: int| #[trigger] o.edge_age(i) <= self.edge_age(i)
    }

    // ------------------------------------------------------- well-formedness ---

    /// One edge is threaded into both of its endpoints' lists and accepts
    /// their kinds.
    pub open spec fn edge_ok(self, e: u32) -> bool {
        let v = self.edges[e];
        &&& 0 < e < MAX_EDGES
        &&& self.live(v.src)
        &&& self.live(v.dst)
        &&& v.src.kind() matches Some(sk) && v.dst.kind() matches Some(dk)
            && crate::id::spec_compatible(v.kind, sk, dk)
        &&& self.list(v.src, Dir::Out, v.kind).contains(e)
        &&& self.list(v.dst, Dir::In, v.kind).contains(e)
        &&& v.data.len() == 24
        &&& v.generation % 2 == 1
    }

    /// One list holds live edges of its kind that name its node, each once.
    pub open spec fn list_ok(self, key: ListKey) -> bool {
        let s = self.lists[key];
        &&& s.no_duplicates()
        &&& forall|i: int|
            0 <= i < s.len() ==> self.edges.contains_key(#[trigger] s[i]) && self.edges[s[i]].kind
                == key.2 && self.edges[s[i]].endpoint(key.1) == key.0
    }

    /// One node: its body is of the kind its id says, and inside its tables.
    pub open spec fn node_ok(self, id: NodeId) -> bool {
        &&& id.kind() == Some(self.nodes[id].body.kind())
        &&& id.generation() % 2 == 1
        &&& self.nodes[id].body.bounded()
    }

    /// One node's body is of the kind its id says.
    pub open spec fn kind_ok(self, id: NodeId) -> bool {
        id.kind() == Some(self.nodes[id].body.kind()) && id.generation() % 2 == 1
    }

    /// Well-formed, whatever the bodies claim.
    pub open spec fn threaded(self) -> bool {
        &&& forall|e: u32| #[trigger] self.edges.contains_key(e) ==> self.edge_ok(e)
        &&& forall|key: ListKey| #[trigger]
            self.lists.contains_key(key) <==> self.nodes.contains_key(key.0)
        &&& forall|key: ListKey| #[trigger] self.lists.contains_key(key) ==> self.list_ok(key)
        &&& forall|id: NodeId| #[trigger] self.nodes.contains_key(id) ==> self.kind_ok(id)
    }

    /// The edges and the lists are two views of one relation, between live
    /// nodes of kinds that fit.
    pub open spec fn wf(self) -> bool {
        &&& forall|e: u32| #[trigger] self.edges.contains_key(e) ==> self.edge_ok(e)
        &&& forall|key: ListKey| #[trigger]
            self.lists.contains_key(key) <==> self.nodes.contains_key(key.0)
        &&& forall|key: ListKey| #[trigger] self.lists.contains_key(key) ==> self.list_ok(key)
        &&& forall|id: NodeId| #[trigger] self.nodes.contains_key(id) ==> self.node_ok(id)
        &&& self.root_id.is_null() || self.root_id.kind() == Some(NodeKind::Root)
    }

    // ---------------------------------------------------------------- steps ---

    pub open spec fn with_body(self, id: NodeId, body: Body) -> GraphView {
        GraphView { nodes: self.nodes.insert(id, NodeView { body, ..self.nodes[id] }), ..self }
    }

    pub open spec fn with_owner(self, id: NodeId, owner: NodeId) -> GraphView {
        GraphView { nodes: self.nodes.insert(id, NodeView { owner, ..self.nodes[id] }), ..self }
    }

    pub open spec fn with_flags(self, id: NodeId, flags: u8) -> GraphView {
        GraphView { nodes: self.nodes.insert(id, NodeView { flags, ..self.nodes[id] }), ..self }
    }

    pub open spec fn with_next_dying(self, id: NodeId, next_dying: NodeId) -> GraphView {
        GraphView {
            nodes: self.nodes.insert(id, NodeView { next_dying, ..self.nodes[id] }),
            ..self
        }
    }

    pub open spec fn with_list(self, key: ListKey, s: Seq<u32>) -> GraphView {
        GraphView { lists: self.lists.insert(key, s), ..self }
    }

    pub open spec fn bumped(self) -> GraphView {
        GraphView { seq: self.seq + 1, ..self }
    }

    /// A new node with no edges.
    pub open spec fn with_node(self, id: NodeId, body: Body) -> GraphView {
        GraphView {
            nodes: self.nodes.insert(
                id,
                NodeView { body, owner: NodeId(0), flags: 0, next_dying: NodeId(0) },
            ),
            lists: Map::new(
                |key: ListKey| self.lists.contains_key(key) || key.0 == id,
                |key: ListKey|
                    if key.0 == id {
                        Seq::empty()
                    } else {
                        self.lists[key]
                    },
            ),
            node_stock: self.node_stock.insert(body.kind(), self.node_stock[body.kind()].after_alloc()),
            ..self
        }
    }

    /// A node with no edges is gone.
    pub open spec fn without_node(self, id: NodeId) -> GraphView {
        GraphView {
            nodes: self.nodes.remove(id),
            lists: Map::new(
                |key: ListKey| self.lists.contains_key(key) && key.0 != id,
                |key: ListKey| self.lists[key],
            ),
            node_stock: self.node_stock.insert(
                id.kind()->Some_0,
                self.node_stock[id.kind()->Some_0].after_free(id.idx()),
            ),
            ..self
        }
    }

    /// A new edge goes to the tail of both of its lists; an `Owns` edge also
    /// sets its target's owner.
    pub open spec fn link(
        self,
        src: NodeId,
        kind: EdgeKind,
        dst: NodeId,
        data: Seq<u8>,
        e: u32,
        generation: u32,
    ) -> GraphView {
        let owned = if kind == EdgeKind::Owns {
            self.with_owner(dst, src)
        } else {
            self
        };
        GraphView {
            edges: self.edges.insert(e, EdgeView { src, dst, kind, data, generation }),
            lists: self.lists.insert(
                (src, Dir::Out, kind),
                self.list(src, Dir::Out, kind).push(e),
            ).insert((dst, Dir::In, kind), self.list(dst, Dir::In, kind).push(e)),
            seq: self.seq + 1,
            edge_stock: self.edge_stock.after_alloc(),
            ..owned
        }
    }

    /// The bookkeeping an edge's kind implies when the edge goes away, before
    /// it leaves its lists.
    pub open spec fn detach(self, e: u32) -> GraphView {
        let v = self.edges[e];
        match v.kind {
            EdgeKind::Holds => self.with_body(
                v.src,
                Body::Process(self.process(v.src).without_handle(self.holds(e).slot, e)),
            ),
            EdgeKind::Maps => self.with_body(
                v.dst,
                Body::MemoryObject(self.memobj(v.dst).unmapped_once()),
            ).with_body(v.src, Body::AddressSpace(self.space(v.src).without_range(e))),
            EdgeKind::Waiting => self.with_body(
                v.src,
                Body::Thread(self.thread(v.src).wait_torn_down()),
            ),
            EdgeKind::InSpace => self.with_body(
                v.src,
                Body::Thread(Thread { cr3: 0, ..self.thread(v.src) }),
            ),
            EdgeKind::Owns => self.with_owner(v.dst, NodeId(0)),
            _ => self,
        }
    }

    /// An edge leaves both of its lists and is gone.
    pub open spec fn cut(self, e: u32) -> GraphView {
        let v = self.edges[e];
        GraphView {
            edges: self.edges.remove(e),
            lists: self.lists.insert(
                (v.src, Dir::Out, v.kind),
                crate::slab::without(self.list(v.src, Dir::Out, v.kind), e),
            ).insert(
                (v.dst, Dir::In, v.kind),
                crate::slab::without(self.list(v.dst, Dir::In, v.kind), e),
            ),
            seq: self.seq + 1,
            edge_stock: self.edge_stock.after_free(e),
            ..self
        }
    }

    /// Removing an edge, with the bookkeeping its kind implies.
    pub open spec fn unlink(self, e: u32) -> GraphView {
        self.detach(e).cut(e)
    }

    /// Removing the first edge of a list, if there is one.
    pub open spec fn unlink_first(self, id: NodeId, dir: Dir, kind: EdgeKind) -> GraphView {
        if self.list(id, dir, kind).len() > 0 {
            self.unlink(self.list(id, dir, kind)[0])
        } else {
            self
        }
    }

    /// The head of a list moves to its tail.
    pub open spec fn rotate(self, id: NodeId, dir: Dir, kind: EdgeKind) -> GraphView {
        let s = self.list(id, dir, kind);
        self.with_list((id, dir, kind), s.drop_first().push(s[0])).bumped()
    }
}

} // verus!

//! Deletion, in two phases: a node is made unreachable at once, and its
//! storage comes back later, one bounded step at a time.

use vstd::prelude::*;

use crate::body::{AddressSpace, Body, MemFlags, MemoryObject, NodeBody, Root, Thread, ThreadState};
use crate::edge::{Dir, EdgeAttr};
use crate::graph::{Cell, Graph, GraphError, Ref, Result};
use crate::id::{EdgeId, EdgeKind, NodeId, NodeKind};
use crate::slab::{NodeHeader, FLAG_DYING};
use crate::store::Store;
use crate::view::{GraphView, ListKey};

verus! {

/// Physical resources a freed node was holding, which only the kernel knows
/// how to return. The graph reports them; it never touches them itself.
#[derive(Clone, Copy, Debug, PartialEq, Eq, Structural)]
pub enum Reclaim {
    Nothing,
    /// Frames a memory object described. Device and pinned regions are
    /// reported too, with their flags, so the caller can decline to free them.
    Frames { phys: u64, pages: u32, flags: MemFlags },
    /// The frame table of a paged memory object: the pages it lists are to be
    /// freed one by one, and then the table itself.
    PagedMemory { table_phys: u64, table_pages: u32, pages: u32 },
    /// The page tables of an address space, root included.
    PageTables { pml4_phys: u64 },
}

/// What one call to `reap_step` accomplished.
#[derive(Clone, Copy, Debug, PartialEq, Eq, Structural)]
pub enum ReapStep {
    /// Nothing is pending.
    Idle,
    /// Bounded work was done; call again.
    Progress,
    /// A node's slot was released, along with whatever physical resources it
    /// was holding.
    Freed { id: NodeId, reclaim: Reclaim },
    /// A thread's wait was torn down because its target is being destroyed.
    /// The kernel should resume it with an error.
    AbortedWait { thread: NodeId },
}

/// What a node's body says its storage was holding.
pub open spec fn reclaim_of(body: Body) -> Reclaim {
    match body {
        Body::MemoryObject(m) => if m.spec_is_paged() {
            Reclaim::PagedMemory {
                table_phys: m.frames_phys,
                table_pages: m.frames_pages,
                pages: m.pages,
            }
        } else {
            Reclaim::Frames { phys: m.phys_base, pages: m.pages, flags: m.flags }
        },
        Body::AddressSpace(s) => if s.pml4_phys != 0 && s.is_kernel == 0 {
            Reclaim::PageTables { pml4_phys: s.pml4_phys }
        } else {
            Reclaim::Nothing
        },
        _ => Reclaim::Nothing,
    }
}

impl GraphView {
    /// A node marked as going away, still attached.
    pub open spec fn marked(self, id: NodeId) -> GraphView {
        self.with_flags(id, self.nodes[id].flags | FLAG_DYING)
    }

    /// A node taken out of the ownership tree and off the scheduler.
    pub open spec fn cut_loose(self, id: NodeId) -> GraphView {
        self.unlink_first(id, Dir::In, EdgeKind::Owns).unlink_first(
            id,
            Dir::In,
            EdgeKind::Ready,
        ).unlink_first(id, Dir::Out, EdgeKind::Waiting)
    }

    /// A thread that is going away says so.
    pub open spec fn stopped(self, id: NodeId) -> GraphView {
        if id.kind() == Some(NodeKind::Thread) {
            self.with_state(id, ThreadState::Dying)
        } else {
            self
        }
    }

    /// A node put at the head of the reaper's list.
    pub open spec fn pending(self, id: NodeId) -> GraphView {
        GraphView {
            dying_head: id,
            seq: self.seq + 1,
            ..self.with_next_dying(id, self.dying_head)
        }
    }

    /// Deletion begun: nothing happens to a node that is already going away.
    pub open spec fn deleted(self, id: NodeId) -> GraphView {
        if !self.live(id) || self.dying(id) {
            self
        } else {
            self.marked(id).cut_loose(id).stopped(id).pending(id)
        }
    }

    /// The list the reaper takes an edge from next.
    pub open spec fn next_list(self, id: NodeId) -> Option<(Dir, EdgeKind)> {
        if self.list(id, Dir::Out, EdgeKind::Holds).len() > 0 {
            Some((Dir::Out, EdgeKind::Holds))
        } else if self.list(id, Dir::In, EdgeKind::Holds).len() > 0 {
            Some((Dir::In, EdgeKind::Holds))
        } else if self.list(id, Dir::Out, EdgeKind::InSpace).len() > 0 {
            Some((Dir::Out, EdgeKind::InSpace))
        } else if self.list(id, Dir::In, EdgeKind::InSpace).len() > 0 {
            Some((Dir::In, EdgeKind::InSpace))
        } else if self.list(id, Dir::Out, EdgeKind::Maps).len() > 0 {
            Some((Dir::Out, EdgeKind::Maps))
        } else if self.list(id, Dir::In, EdgeKind::Maps).len() > 0 {
            Some((Dir::In, EdgeKind::Maps))
        } else if self.list(id, Dir::Out, EdgeKind::Ready).len() > 0 {
            Some((Dir::Out, EdgeKind::Ready))
        } else if self.list(id, Dir::In, EdgeKind::Ready).len() > 0 {
            Some((Dir::In, EdgeKind::Ready))
        } else if self.list(id, Dir::Out, EdgeKind::Waiting).len() > 0 {
            Some((Dir::Out, EdgeKind::Waiting))
        } else if self.list(id, Dir::In, EdgeKind::Waiting).len() > 0 {
            Some((Dir::In, EdgeKind::Waiting))
        } else if self.list(id, Dir::Out, EdgeKind::Named).len() > 0 {
            Some((Dir::Out, EdgeKind::Named))
        } else if self.list(id, Dir::In, EdgeKind::Named).len() > 0 {
            Some((Dir::In, EdgeKind::Named))
        } else if self.list(id, Dir::Out, EdgeKind::Owns).len() > 0 {
            Some((Dir::Out, EdgeKind::Owns))
        } else if self.list(id, Dir::In, EdgeKind::Owns).len() > 0 {
            Some((Dir::In, EdgeKind::Owns))
        } else {
            None
        }
    }

    /// The edge the reaper takes next, if it is an edge that it takes.
    pub open spec fn cut_next(self) -> Option<u32> {
        let id = self.dying_head;
        if id.is_null() || !self.live(id) || self.list(id, Dir::Out, EdgeKind::Owns).len() > 0 {
            None
        } else {
            match self.next_list(id) {
                Some((d, k)) => Some(self.list(id, d, k)[0]),
                None => None,
            }
        }
    }

    /// A node with no edges released, and taken off the reaper's list.
    pub open spec fn freed(self, id: NodeId) -> GraphView {
        GraphView {
            dying_head: self.nodes[id].next_dying,
            root_id: if id == self.root_id {
                NodeId(0)
            } else {
                self.root_id
            },
            seq: self.seq + 1,
            ..self.without_node(id)
        }
    }

    /// The node at the head of the reaper's list is there, and if it owns a
    /// node, that node is not already going away.
    pub open spec fn can_progress(self) -> bool {
        let out = self.list(self.dying_head, Dir::Out, EdgeKind::Owns);
        self.live(self.dying_head) && (out.len() > 0 ==> !self.dying(self.edges[out[0]].dst))
    }

    /// One step of the reaper, and what it reports. Owned children die with
    /// their owner; then every remaining edge goes, one per step; then the
    /// node itself.
    pub open spec fn reaped(self) -> (GraphView, ReapStep) {
        let id = self.dying_head;
        if id.is_null() {
            (self, ReapStep::Idle)
        } else if !self.live(id) {
            (GraphView { dying_head: NodeId(0), ..self }, ReapStep::Progress)
        } else if self.list(id, Dir::Out, EdgeKind::Owns).len() > 0 {
            (
                self.deleted(self.edges[self.list(id, Dir::Out, EdgeKind::Owns)[0]].dst),
                ReapStep::Progress,
            )
        } else {
            match self.next_list(id) {
                Some((d, k)) => (
                    self.unlink_first(id, d, k),
                    if d == Dir::In && k == EdgeKind::Waiting {
                        ReapStep::AbortedWait { thread: self.edges[self.list(id, d, k)[0]].src }
                    } else {
                        ReapStep::Progress
                    },
                ),
                None => (
                    self.freed(id),
                    ReapStep::Freed { id, reclaim: reclaim_of(self.nodes[id].body) },
                ),
            }
        }
    }
}

impl GraphView {
    /// The graph after `n` steps of the reaper.
    pub open spec fn reaped_times(self, n: nat) -> GraphView
        decreases n,
    {
        if n == 0 {
            self
        } else {
            self.reaped_times((n - 1) as nat).reaped().0
        }
    }

    /// How many nodes the first `n` steps of the reaper free.
    pub open spec fn freed_in(self, n: nat) -> nat
        decreases n,
    {
        if n == 0 {
            0
        } else {
            self.freed_in((n - 1) as nat) + if self.reaped_times((n - 1) as nat).reaped().1 is Freed {
                1nat
            } else {
                0nat
            }
        }
    }
}

impl Graph {
    /// One live slot has become a free one.
    pub open spec fn slot_freed(self, o: Graph, kind: NodeKind, idx: int) -> bool {
        &&& self.same_outside_nodes(o)
        &&& self.books(kind) == o.books(kind).after_free(idx as u32)
        &&& forall|k: NodeKind| k != kind ==> #[trigger] self.books(k) == o.books(k)
        &&& self.cell(kind, idx).generation == o.cell(kind, idx).generation + 1
        &&& forall|k: NodeKind, i: int|
            0 <= i < Self::cap(k) && !(k == kind && i == idx) ==> #[trigger] self.cell(k, i)
                == o.cell(k, i)
    }

    /// Release a node's slot.
    fn free_slot(&mut self, id: NodeId)
        requires
            old(self).arenas_ok(),
            old(self).spec_live(id),
        ensures
            final(self).arenas_ok(),
            final(self).slot_freed(*old(self), id.kind()->Some_0, id.idx() as int),
    {
        let i: u32 = id.idx();
        proof {
            assert(self.books(id.kind()->Some_0).wf());
        }
        match id.kind() {
            Some(NodeKind::Root) => self.roots.free(i),
            Some(NodeKind::Cpu) => self.cpus.free(i),
            Some(NodeKind::Process) => self.processes.free(i),
            Some(NodeKind::Thread) => self.threads.free(i),
            Some(NodeKind::AddressSpace) => self.spaces.free(i),
            Some(NodeKind::MemoryObject) => self.memobjs.free(i),
            Some(NodeKind::Endpoint) => self.endpoints.free(i),
            Some(NodeKind::Device) => self.devices.free(i),
            None => {},
        }
        proof {
            assert forall|k: NodeKind| #[trigger] self.books(k).wf() by {
                assert(old(self).books(k).wf());
            }
        }
    }

    /// Phase one of deletion: constant-time, safe with interrupts disabled.
    ///
    /// From the moment this returns, the node is unreachable from the root, the
    /// scheduler will never pick it, and every handle dereference to it fails.
    /// Storage comes back later, in `reap_step`.
    pub fn begin_delete(&mut self, id: NodeId) -> (r: Result<()>)
        requires
            old(self).wf(),
            old(self).seq + 4 <= u64::MAX,
        ensures
            final(self).wf(),
            !old(self)@.live(id) ==> r == Err::<(), GraphError>(GraphError::StaleNode(id))
                && *final(self) == *old(self),
            old(self)@.live(id) ==> r == Ok::<(), GraphError>(()),
            old(self)@.live(id) && old(self)@.dying(id) ==> *final(self) == *old(self),
            final(self)@ == old(self)@.deleted(id),
            final(self).edges.live <= old(self).edges.live,
            old(self)@.live(id) && !old(self)@.dying(id) && old(self)@.list(
                id,
                Dir::In,
                EdgeKind::Owns,
            ).len() > 0 ==> final(self).edges.live < old(self).edges.live,
            final(self).seq <= old(self).seq + 4,
            forall|k: NodeKind| #[trigger] final(self).books(k) == old(self).books(k),
            final(self)@.since(old(self)@),
    {
        let flags: u8 = match self.header(id) {
            None => return Err(GraphError::StaleNode(id)),
            Some(h) => {
                if h.is_dying() {
                    return Ok(());
                }
                h.flags
            },
        };
        let ghost g0 = *self;
        match self.header_mut(id) {
            Some(h) => {
                h.flags = flags | FLAG_DYING;
            },
            None => {},
        }
        proof {
            let h = NodeHeader { flags: flags | FLAG_DYING, ..g0.hdr(id) };
            crate::graph::header_rewrite_view(*self, g0, id, h);
            crate::graph::cell_rewrite_keeps(
                *self,
                g0,
                id.kind()->Some_0,
                id.idx() as int,
                Cell { hdr: h, ..g0.cell_at(id) },
            );
            assert(self@ =~= g0@.marked(id));
        }
        let ghost g1 = *self;
        // Detach from the ownership tree: this is what makes it unreachable.
        self.unlink_first(id, Dir::In, EdgeKind::Owns);
        let ghost g2 = *self;
        // Detach from the scheduler.
        self.unlink_first(id, Dir::In, EdgeKind::Ready);
        let ghost g3 = *self;
        self.unlink_first(id, Dir::Out, EdgeKind::Waiting);
        let ghost g4 = *self;
        if let Some(NodeKind::Thread) = id.kind() {
            let r: Ref<Thread> = Ref::from_raw(id);
            if let Some(b) = self.body(r) {
                let mut nb: Thread = *b;
                nb.state = ThreadState::Dying;
                self.write_body(r, nb);
            }
        }
        let ghost g5 = *self;
        proof {
            assert(g5@ == g0@.marked(id).cut_loose(id).stopped(id));
            assert(g1@.live(id));
            assert(g2@.live(id) && g3@.live(id) && g4@.live(id));
            assert(g5@.live(id));
            assert(g5.spec_live(id));
        }
        let head = self.dying_head;
        match self.header_mut(id) {
            Some(h) => {
                h.next_dying = head;
            },
            None => {},
        }
        proof {
            let h = NodeHeader { next_dying: head, ..g5.hdr(id) };
            crate::graph::header_rewrite_view(*self, g5, id, h);
            crate::graph::cell_rewrite_keeps(
                *self,
                g5,
                id.kind()->Some_0,
                id.idx() as int,
                Cell { hdr: h, ..g5.cell_at(id) },
            );
        }
        let ghost g6 = *self;
        self.dying_head = id;
        self.seq = self.seq + 1;
        proof {
            crate::create::same_memory_same_graph(*self, g6);
            assert(self@ =~= g5@.pending(id));
            assert forall|k: NodeKind| #[trigger] self.books(k) == g0.books(k) by {
                assert(self.books(k) == g6.books(k));
                assert(g6.books(k) == g5.books(k));
                assert(g5.books(k) == g4.books(k));
                assert(g4.books(k) == g3.books(k));
                assert(g3.books(k) == g2.books(k));
                assert(g2.books(k) == g1.books(k));
                assert(g1.books(k) == g0.books(k));
            }
            assert(g1@.since(g0@));
            assert(g5@.since(g4@));
            assert(g6@.since(g5@));
            assert(self@.since(g6@));
        }
        Ok(())
    }

    /// Take one edge of a kind off a node that is being reaped, an out-edge
    /// before an in-edge.
    fn reap_edge(&mut self, id: NodeId, kind: EdgeKind) -> (r: Option<ReapStep>)
        requires
            old(self).wf(),
            old(self)@.live(id),
            old(self).seq < u64::MAX,
        ensures
            final(self).wf(),
            final(self).seq <= old(self).seq + 1,
            forall|k: NodeKind| #[trigger] final(self).books(k) == old(self).books(k),
            r is Some ==> final(self).edges.live + 1 == old(self).edges.live,
            ({
                let out = old(self)@.list(id, Dir::Out, kind);
                let inn = old(self)@.list(id, Dir::In, kind);
                &&& out.len() > 0 ==> r == Some(ReapStep::Progress) && final(self)@
                    == old(self)@.unlink_first(id, Dir::Out, kind)
                &&& out.len() == 0 && inn.len() > 0 ==> final(self)@ == old(self)@.unlink_first(
                    id,
                    Dir::In,
                    kind,
                ) && r == Some(
                    if kind == EdgeKind::Waiting {
                        ReapStep::AbortedWait { thread: old(self)@.edges[inn[0]].src }
                    } else {
                        ReapStep::Progress
                    },
                )
                &&& out.len() == 0 && inn.len() == 0 ==> r is None && *final(self) == *old(self)
            }),
            final(self)@.since(old(self)@),
    {
        if let Some(e) = self.first_out(id, kind) {
            let _ = self.unlink(e);
            return Some(ReapStep::Progress);
        }
        if let Some(e) = self.first_in(id, kind) {
            let waiter = match kind {
                EdgeKind::Waiting => match self.edge(e) {
                    Some(x) => Some(x.src),
                    None => None,
                },
                _ => None,
            };
            let _ = self.unlink(e);
            if let Some(t) = waiter {
                return Some(ReapStep::AbortedWait { thread: t });
            }
            return Some(ReapStep::Progress);
        }
        None
    }

    /// What a live node's storage is holding.
    fn reclaim(&self, id: NodeId) -> (r: Reclaim)
        requires
            self.wf(),
            self@.live(id),
        ensures
            r == reclaim_of(self@.nodes[id].body),
    {
        proof {
            assert(self@.nodes.contains_key(id));
            assert(self@.node_ok(id));
        }
        match id.kind() {
            Some(NodeKind::MemoryObject) => {
                let r: Ref<MemoryObject> = Ref::from_raw(id);
                match self.body(r) {
                    Some(b) => {
                        if b.is_paged() {
                            Reclaim::PagedMemory {
                                table_phys: b.frames_phys,
                                table_pages: b.frames_pages,
                                pages: b.pages,
                            }
                        } else {
                            Reclaim::Frames { phys: b.phys_base, pages: b.pages, flags: b.flags }
                        }
                    },
                    None => Reclaim::Nothing,
                }
            },
            Some(NodeKind::AddressSpace) => {
                let r: Ref<AddressSpace> = Ref::from_raw(id);
                match self.body(r) {
                    Some(b) => {
                        if b.pml4_phys != 0 && b.is_kernel == 0 {
                            Reclaim::PageTables { pml4_phys: b.pml4_phys }
                        } else {
                            Reclaim::Nothing
                        }
                    },
                    None => Reclaim::Nothing,
                }
            },
            _ => Reclaim::Nothing,
        }
    }

    /// The mapping the reaper removes next, if that is what it does next.
    pub fn next_mapping_cut(&self) -> (r: Option<EdgeId>)
        requires
            self.wf(),
        ensures
            match self@.cut_next() {
                Some(e) => if self@.edges[e].kind == EdgeKind::Maps {
                    r matches Some(x) && self@.has_edge(x) && x.idx() == e
                } else {
                    r is None
                },
                None => r is None,
            },
    {
        let ghost v = self@;
        let id = self.dying_head;
        if id.is_null() || !self.is_live(id) {
            return None;
        }
        proof {
            assert forall|d: Dir, k: EdgeKind| (#[trigger] v.list(id, d, k)).len() > 0 implies v.edges[v.list(
                id,
                d,
                k,
            )[0]].kind == k by {
                assert(v.lists.contains_key((id, d, k)));
                assert(v.list_ok((id, d, k)));
            }
        }
        if self.first_out(id, EdgeKind::Owns).is_some() {
            return None;
        }
        if self.first_out(id, EdgeKind::Holds).is_some() || self.first_in(
            id,
            EdgeKind::Holds,
        ).is_some() {
            return None;
        }
        if self.first_out(id, EdgeKind::InSpace).is_some() || self.first_in(
            id,
            EdgeKind::InSpace,
        ).is_some() {
            return None;
        }
        match self.first_out(id, EdgeKind::Maps) {
            Some(e) => Some(e),
            None => self.first_in(id, EdgeKind::Maps),
        }
    }

    /// One bounded unit of reclamation. Call from a kernel thread until it
    /// returns `Idle`; never from an interrupt handler.
    pub fn reap_step(&mut self) -> (r: ReapStep)
        requires
            old(self).wf(),
            old(self).seq + 4 <= u64::MAX,
        ensures
            final(self).wf(),
            (final(self)@, r) == old(self)@.reaped(),
            final(self).seq <= old(self).seq + 4,
            r is Idle ==> *final(self) == *old(self),
            !(r is Freed) ==> final(self).live_nodes_total() == old(self).live_nodes_total(),
            r is Freed ==> final(self).live_nodes_total() + 1 == old(self).live_nodes_total()
                && final(self).edges.live == old(self).edges.live,
            r is AbortedWait || r is Progress && old(self)@.can_progress() ==> final(self).edges.live < old(self).edges.live,
            final(self)@.since(old(self)@),
    {
        let ghost g0 = *self;
        let ghost v = self@;
        let id = self.dying_head;
        if id.is_null() {
            return ReapStep::Idle;
        }
        if !self.is_live(id) {
            // Already gone; pop it.
            self.dying_head = NodeId::null();
            proof {
                crate::create::same_memory_same_graph(*self, g0);
                same_books_same_total(*self, g0);
            }
            return ReapStep::Progress;
        }
        // Owned children die with their owner.
        if let Some(e) = self.first_out(id, EdgeKind::Owns) {
            if let Some(x) = self.edge(e) {
                let child = x.dst;
                proof {
                    crate::unlink::list_members_live(g0, id, Dir::Out, EdgeKind::Owns);
                    assert(v.edges.contains_key(e.idx()));
                    assert(v.edge_ok(e.idx()));
                }
                let _ = self.begin_delete(child);
                proof {
                    same_books_same_total(*self, g0);
                }
                return ReapStep::Progress;
            }
        }
        // Then every remaining incident edge, one per call.
        if let Some(s) = self.reap_edge(id, EdgeKind::Holds) {
            proof {
                same_books_same_total(*self, g0);
            }
            return s;
        }
        if let Some(s) = self.reap_edge(id, EdgeKind::InSpace) {
            proof {
                same_books_same_total(*self, g0);
            }
            return s;
        }
        if let Some(s) = self.reap_edge(id, EdgeKind::Maps) {
            proof {
                same_books_same_total(*self, g0);
            }
            return s;
        }
        if let Some(s) = self.reap_edge(id, EdgeKind::Ready) {
            proof {
                same_books_same_total(*self, g0);
            }
            return s;
        }
        if let Some(s) = self.reap_edge(id, EdgeKind::Waiting) {
            proof {
                same_books_same_total(*self, g0);
            }
            return s;
        }
        if let Some(s) = self.reap_edge(id, EdgeKind::Named) {
            proof {
                same_books_same_total(*self, g0);
            }
            return s;
        }
        if let Some(s) = self.reap_edge(id, EdgeKind::Owns) {
            proof {
                same_books_same_total(*self, g0);
            }
            return s;
        }
        // Isolated: release the slot.
        let next = match self.header(id) {
            Some(h) => h.next_dying,
            None => NodeId::null(),
        };
        let reclaim = self.reclaim(id);
        self.free_slot(id);
        let ghost g1 = *self;
        proof {
            node_removed(g1, g0, id);
            one_node_fewer(g1, g0, id);
        }
        self.dying_head = next;
        if id == self.root_id {
            self.root_id = NodeId::null();
        }
        self.seq = self.seq + 1;
        proof {
            crate::create::same_memory_same_graph(*self, g1);
            assert forall|k: NodeKind| #[trigger] self.books(k) == g1.books(k) by {}
            same_books_same_total(*self, g1);
            assert(self@ =~= v.freed(id));
        }
        ReapStep::Freed { id, reclaim }
    }
}

/// Freeing one slot leaves one live node fewer.
proof fn one_node_fewer(g: Graph, o: Graph, id: NodeId)
    requires
        o.arenas_ok(),
        o.spec_live(id),
        g.slot_freed(o, id.kind()->Some_0, id.idx() as int),
    ensures
        g.live_nodes_total() + 1 == o.live_nodes_total(),
{
    let kind = id.kind()->Some_0;
    let i = id.idx() as int;
    let b = o.books(kind);
    assert(b.wf());
    crate::arena::free_keeps_books(b, id.idx());
    crate::arena::count_live_update(b.gens, i, (b.gens[i] + 1) as u32);
    assert forall|k: NodeKind| k != kind implies #[trigger] g.books(k) == o.books(k) by {}
    assert(g.books(kind).gens == b.gens.update(i, (b.gens[i] + 1) as u32));
    assert(kind != NodeKind::Root ==> g.books(NodeKind::Root) == o.books(NodeKind::Root));
    assert(kind != NodeKind::Cpu ==> g.books(NodeKind::Cpu) == o.books(NodeKind::Cpu));
    assert(kind != NodeKind::Process ==> g.books(NodeKind::Process) == o.books(NodeKind::Process));
    assert(kind != NodeKind::Thread ==> g.books(NodeKind::Thread) == o.books(NodeKind::Thread));
    assert(kind != NodeKind::AddressSpace ==> g.books(NodeKind::AddressSpace) == o.books(
        NodeKind::AddressSpace,
    ));
    assert(kind != NodeKind::MemoryObject ==> g.books(NodeKind::MemoryObject) == o.books(
        NodeKind::MemoryObject,
    ));
    assert(kind != NodeKind::Endpoint ==> g.books(NodeKind::Endpoint) == o.books(
        NodeKind::Endpoint,
    ));
    assert(kind != NodeKind::Device ==> g.books(NodeKind::Device) == o.books(NodeKind::Device));
}

/// There are at most as many live nodes as slots.
pub proof fn few_nodes(g: Graph)
    requires
        g.arenas_ok(),
    ensures
        g.live_nodes_total() <= 921,
{
    assert forall|k: NodeKind| #[trigger] g.books(k).gens.len() == Graph::cap(k)
        && crate::arena::count_live(g.books(k).gens) <= g.books(k).gens.len() by {
        crate::arena::count_live_bound(g.books(k).gens);
    }
    assert(g.books(NodeKind::Root).gens.len() == 1);
    assert(g.books(NodeKind::Cpu).gens.len() == 8);
    assert(g.books(NodeKind::Process).gens.len() == 64);
    assert(g.books(NodeKind::Thread).gens.len() == 128);
    assert(g.books(NodeKind::AddressSpace).gens.len() == 64);
    assert(g.books(NodeKind::MemoryObject).gens.len() == 512);
    assert(g.books(NodeKind::Endpoint).gens.len() == 128);
    assert(g.books(NodeKind::Device).gens.len() == 16);
}

/// The number of live nodes is read off the arenas' books.
pub proof fn same_books_same_total(g: Graph, o: Graph)
    requires
        forall|k: NodeKind| #[trigger] g.books(k) == o.books(k),
    ensures
        g.live_nodes_total() == o.live_nodes_total(),
{
    assert(g.books(NodeKind::Root) == o.books(NodeKind::Root));
    assert(g.books(NodeKind::Cpu) == o.books(NodeKind::Cpu));
    assert(g.books(NodeKind::Process) == o.books(NodeKind::Process));
    assert(g.books(NodeKind::Thread) == o.books(NodeKind::Thread));
    assert(g.books(NodeKind::AddressSpace) == o.books(NodeKind::AddressSpace));
    assert(g.books(NodeKind::MemoryObject) == o.books(NodeKind::MemoryObject));
    assert(g.books(NodeKind::Endpoint) == o.books(NodeKind::Endpoint));
    assert(g.books(NodeKind::Device) == o.books(NodeKind::Device));
}

/// Releasing the slot of a node with no edges takes the node out of the view.
pub proof fn node_removed(g: Graph, o: Graph, id: NodeId)
    requires
        o.wf(),
        o.spec_live(id),
        g.arenas_ok(),
        g.slot_freed(o, id.kind()->Some_0, id.idx() as int),
        forall|d: Dir, k: EdgeKind| #[trigger] o@.list(id, d, k).len() == 0,
    ensures
        g.wf(),
        g@ == o@.without_node(id),
{
    let kind = id.kind()->Some_0;
    let idx = id.idx() as int;
    assert(o.books(kind).wf());
    crate::arena::free_to_stock(o.books(kind), id.idx());
    assert forall|n: NodeId| #[trigger] g.spec_live(n) <==> o.spec_live(n) && n != id by {
        if let Some(k) = n.kind() {
            if n.idx() < Graph::cap(k) {
                if k == kind && n.idx() == idx {
                    if o.spec_live(n) {
                        crate::graph::same_slot_same_id(o, n, id);
                    }
                } else {
                    assert(g.cell(k, n.idx() as int) == o.cell(k, n.idx() as int));
                }
            }
        }
    }
    assert forall|n: NodeId| #[trigger] g.spec_live(n) implies g.cell_at(n) == o.cell_at(n) by {
        let k = n.kind()->Some_0;
        if k == kind && n.idx() == idx {
            crate::graph::same_slot_same_id(o, n, id);
        }
        assert(g.cell(k, n.idx() as int) == o.cell(k, n.idx() as int));
    }
    let v = g@;
    let w = o@.without_node(id);
    assert(v.nodes.dom() =~= w.nodes.dom());
    assert forall|n: NodeId| v.nodes.contains_key(n) implies v.nodes[n] == w.nodes[n] by {
        assert(g.spec_live(n));
    }
    assert(v.nodes =~= w.nodes);
    assert(v.edges =~= w.edges);
    assert(v.lists.dom() =~= w.lists.dom()) by {
        assert forall|key: ListKey| v.lists.contains_key(key) <==> w.lists.contains_key(key) by {
            assert(g.spec_live(key.0) <==> o.spec_live(key.0) && key.0 != id);
            assert(o@.lists.contains_key(key) <==> o@.nodes.contains_key(key.0));
        }
    }
    assert forall|key: ListKey| v.lists.contains_key(key) implies v.lists[key] == w.lists[key] by {
        assert(g.spec_live(key.0));
    }
    assert(v.lists =~= w.lists);
    assert(v.node_stock =~= w.node_stock) by {
        assert forall|k: NodeKind| v.node_stock[k] == w.node_stock[k] by {
            assert(k != kind ==> g.books(k) == o.books(k));
        }
    }
    assert(g.headers_ok()) by {
        assert forall|n: NodeId| #[trigger] g.spec_live(n) implies g.hdr(n).kind
            == n.kind_raw() by {
            assert(o.spec_live(n));
        }
    }
    assert(g.rings_ok()) by {
        assert forall|n: NodeId, d: Dir, k: EdgeKind|
            g.spec_live(n) implies #[trigger] g.edges.is_ring(g.hdr(n).spec_head(d, k), d) by {
            assert(o.spec_live(n));
            assert(g.cell_at(n) == o.cell_at(n));
            assert(o.edges.is_ring(o.hdr(n).spec_head(d, k), d));
        }
    }
    assert(g.edge_kinds_ok()) by {
        assert forall|e: u32| #[trigger]
            g.edge_live(e) implies g.edges.slots@[e as int].spec_edge_kind() is Some by {
            assert(o.edge_live(e));
        }
    }
    without_node_wf(o@, id);
}

/// Taking out a node with no edges keeps the view well formed.
pub proof fn without_node_wf(v: GraphView, id: NodeId)
    requires
        v.wf(),
        v.live(id),
        forall|d: Dir, k: EdgeKind| #[trigger] v.list(id, d, k).len() == 0,
    ensures
        v.without_node(id).wf(),
        forall|e: u32| #[trigger]
            v.edges.contains_key(e) ==> v.edges[e].src != id && v.edges[e].dst != id,
{
    let w = v.without_node(id);
    assert forall|e: u32| #[trigger] v.edges.contains_key(e) implies v.edges[e].src != id
        && v.edges[e].dst != id by {
        assert(v.edge_ok(e));
        let x = v.edges[e];
        if x.src == id {
            assert(v.list(id, Dir::Out, x.kind).contains(e));
        }
        if x.dst == id {
            assert(v.list(id, Dir::In, x.kind).contains(e));
        }
    }
    assert forall|e: u32| #[trigger] w.edges.contains_key(e) implies w.edge_ok(e) by {
        assert(v.edges.contains_key(e));
        assert(v.edge_ok(e));
        let x = v.edges[e];
        assert(v.lists.contains_key((x.src, Dir::Out, x.kind)));
        assert(v.lists.contains_key((x.dst, Dir::In, x.kind)));
    }
    assert forall|key: ListKey| #[trigger] w.lists.contains_key(key) <==> w.nodes.contains_key(
        key.0,
    ) by {
        assert(v.lists.contains_key(key) <==> v.nodes.contains_key(key.0));
    }
    assert forall|key: ListKey| #[trigger] w.lists.contains_key(key) implies w.list_ok(key) by {
        assert(v.lists.contains_key(key));
        assert(v.list_ok(key));
    }
    assert forall|n: NodeId| #[trigger] w.nodes.contains_key(n) implies w.node_ok(n) by {
        assert(v.nodes.contains_key(n));
        assert(v.node_ok(n));
    }
}

} // verus!

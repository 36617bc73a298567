//! Removing edges, with the bookkeeping each kind implies.

use vstd::prelude::*;

use crate::body::{AddressSpace, MemoryObject, NodeBody, Process, Thread, ThreadState};
use crate::edge::{Dir, Edge, EdgeAttr, HoldsAttr};
use crate::graph::{Graph, GraphError, Ref, Result};
use crate::id::{EdgeId, EdgeKind, NodeId, NodeKind};
use crate::limits::{HANDLE_SLOTS, MAX_EDGES, MAX_MAPPINGS_PER_SPACE};
use crate::store::Store;
use crate::slab::{list_remove, relinked, without, NodeHeader};
use crate::view::{GraphView, ListKey};

verus! {

impl AddressSpace {
    /// Take an edge out of the range index, if it is there.
    pub(crate) fn drop_range(&mut self, e: u32)
        requires
            old(self).bounded(),
        ensures
            *final(self) == old(self).without_range(e),
            final(self).bounded(),
    {
        let count: usize = self.mapping_count as usize;
        let ghost old_ranges = self.ranges@;
        let ghost idx = self.indexed();
        let mut pos: usize = 0;
        while pos < count && self.ranges[pos] != e
            invariant
                pos <= count <= MAX_MAPPINGS_PER_SPACE,
                count == self.mapping_count,
                *self == *old(self),
                idx == self.indexed(),
                forall|j: int| 0 <= j < pos ==> idx[j] != e,
            decreases count - pos,
        {
            pos = pos + 1;
        }
        if pos == count {
            assert(!idx.contains(e));
            return;
        }
        assert(idx[pos as int] == e);
        assert(idx.contains(e));
        let mut i: usize = pos;
        while i + 1 < count
            invariant
                pos <= i < count <= MAX_MAPPINGS_PER_SPACE,
                old_ranges == old(self).ranges@,
                old(self).bounded(),
                *self == (AddressSpace { ranges: self.ranges, ..*old(self) }),
                forall|j: int| 0 <= j < pos ==> self.ranges@[j] == old_ranges[j],
                forall|j: int| pos <= j < i ==> self.ranges@[j] == old_ranges[j + 1],
                forall|j: int| i <= j < MAX_MAPPINGS_PER_SPACE ==> self.ranges@[j] == old_ranges[j],
            decreases count - i,
        {
            self.ranges[i] = self.ranges[i + 1];
            i = i + 1;
        }
        self.ranges[count - 1] = 0;
        self.mapping_count = self.mapping_count - 1;
        proof {
            assert(crate::view::is_first(idx, e, pos as int));
            let k = crate::view::first_at(idx, e);
            assert(crate::view::is_first(idx, e, k));
            assert(k == pos);
            assert(self.ranges@ =~= old_ranges.remove(pos as int).insert(count - 1, 0));
            crate::view::array_of_view(self.ranges);
        }
    }
}

impl Graph {
    /// Replace a live node's body.
    pub(crate) fn write_body<B: Store>(&mut self, r: Ref<B>, body: B)
        requires
            old(self).wf(),
            old(self)@.live(r.id()),
            body.erase().bounded(),
        ensures
            final(self).wf(),
            final(self).edges == old(self).edges,
            final(self)@ == old(self)@.with_body(r.id(), body.erase()),
            forall|k: NodeKind| #[trigger] final(self).books(k) == old(self).books(k),
            r.id().kind() == Some(B::spec_kind()),
            final(self)@.since(old(self)@),
    {
        let ghost g0 = *self;
        let id = r.id();
        match self.body_mut(r) {
            Some(b) => {
                *b = body;
            },
            None => {},
        }
        proof {
            assert(g0@.nodes.contains_key(id));
            assert(g0@.node_ok(id));
            body.erase_kind();
            crate::graph::body_rewrite_view(*self, g0, id, body.erase());
            crate::graph::cell_rewrite_keeps(
                *self,
                g0,
                B::spec_kind(),
                id.idx() as int,
                crate::graph::Cell { body: body.erase(), ..g0.cell_at(id) },
            );
        }
    }

    /// Keep the derived indices consistent with an edge that is going away.
    fn detach(&mut self, ei: u32, kind: EdgeKind)
        requires
            old(self).wf(),
            old(self)@.edges.contains_key(ei),
            old(self)@.edges[ei].kind == kind,
        ensures
            final(self).wf(),
            final(self).edges == old(self).edges,
            final(self)@ == old(self)@.detach(ei),
            forall|k: NodeKind| #[trigger] final(self).books(k) == old(self).books(k),
            final(self)@.since(old(self)@),
    {
        let ghost v = self@;
        proof {
            assert(v.edge_ok(ei));
            assert(v.node_ok(v.edges[ei].src) && v.node_ok(v.edges[ei].dst));
        }
        let e: Edge = *self.edges.at(ei);
        match kind {
            EdgeKind::Holds => {
                let slot: u32 = HoldsAttr::decode(e.data).slot;
                if let Some(p) = self.typed::<Process>(e.src) {
                    if let Some(b) = self.body(p) {
                        let mut nb: Process = *b;
                        let ghost p0 = nb;
                        if (slot as usize) < HANDLE_SLOTS && nb.handles[slot as usize] == ei {
                            nb.handles[slot as usize] = 0;
                        }
                        proof {
                            crate::view::array_of_view(nb.handles);
                            if slot < HANDLE_SLOTS && p0.handles@[slot as int] == ei {
                                assert(nb.handles@ =~= p0.handles@.update(slot as int, 0));
                            }
                            assert(nb == p0.without_handle(slot, ei));
                        }
                        self.write_body(p, nb);
                    }
                }
            },
            EdgeKind::Maps => {
                if let Some(m) = self.typed::<MemoryObject>(e.dst) {
                    if let Some(b) = self.body(m) {
                        let mut nb: MemoryObject = *b;
                        if nb.map_count > 0 {
                            nb.map_count = nb.map_count - 1;
                        }
                        self.write_body(m, nb);
                    }
                }
                if let Some(s) = self.typed::<AddressSpace>(e.src) {
                    if let Some(b) = self.body(s) {
                        let mut nb: AddressSpace = *b;
                        nb.drop_range(ei);
                        self.write_body(s, nb);
                    }
                }
            },
            EdgeKind::Waiting => {
                // The object this thread was waiting on is going away, or the
                // wait is being cancelled. Either way the thread must not stay
                // blocked with no edge to show for it. It goes inert with a
                // flag, and the kernel requeues it with an error.
                if let Some(t) = self.typed::<Thread>(e.src) {
                    if let Some(b) = self.body(t) {
                        let mut nb: Thread = *b;
                        if nb.state == ThreadState::Blocked {
                            nb.state = ThreadState::Inert;
                            nb.wait_aborted = 1;
                        }
                        self.write_body(t, nb);
                    }
                }
            },
            EdgeKind::InSpace => {
                if let Some(t) = self.typed::<Thread>(e.src) {
                    if let Some(b) = self.body(t) {
                        let mut nb: Thread = *b;
                        nb.cr3 = 0;
                        self.write_body(t, nb);
                    }
                }
            },
            EdgeKind::Owns => {
                let ghost g0 = *self;
                match self.header_mut(e.dst) {
                    Some(h) => {
                        h.owner = NodeId::null();
                    },
                    None => {},
                }
                proof {
                    let h = NodeHeader { owner: NodeId(0), ..g0.hdr(e.dst) };
                    crate::graph::header_rewrite_view(*self, g0, e.dst, h);
                    crate::link::owner_rewrite_keeps(*self, g0, e.dst, NodeId(0));
                }
            },
            _ => {},
        }
    }
}

impl Graph {
    /// Take an edge out of one list.
    fn unthread(&mut self, id: NodeId, dir: Dir, kind: EdgeKind, ei: u32)
        requires
            old(self).spec_live(id),
            old(self).edges.wf(),
            old(self).edges.is_ring(old(self).hdr(id).spec_head(dir, kind), dir),
            old(self)@.list(id, dir, kind).contains(ei),
            forall|i: int|
                0 <= i < old(self)@.list(id, dir, kind).len() ==> old(self).edge_live(
                    #[trigger] old(self)@.list(id, dir, kind)[i],
                ),
        ensures
            final(self).edges.wf(),
            final(self).edges.books().gens == old(self).edges.books().gens,
            final(self).edges.books().stock() == old(self).edges.books().stock(),
            final(self).edges.live == old(self).edges.live,
            relinked(
                old(self).edges.slots@,
                final(self).edges.slots@,
                dir,
                old(self)@.list(id, dir, kind),
            ),
            final(self).edges.is_ring(final(self).hdr(id).spec_head(dir, kind), dir),
            final(self).edges.list(final(self).hdr(id).spec_head(dir, kind), dir) == without(
                old(self)@.list(id, dir, kind),
                ei,
            ),
            final(self).same_but_head(*old(self), id, dir, kind),
    {
        let ghost g0 = *self;
        let ghost s = self@.list(id, dir, kind);
        let head: u32 = self.list_head(id, dir, kind);
        let new_head: u32 = list_remove(&mut self.edges, head, ei, dir);
        proof {
            assert forall|i: int| 0 <= i < s.len() implies (#[trigger] s[i]) < MAX_EDGES
                && g0.edges.slots@[s[i] as int].spec_is_live() by {
                assert(g0.edge_live(s[i]));
            }
            crate::link::relink_keeps_edges(g0.edges, self.edges, dir, s);
        }
        let ghost g1 = *self;
        self.set_list_head(id, dir, kind, new_head);
        proof {
            assert forall|n: NodeId| #[trigger] g1.spec_live(n) == g0.spec_live(n) by {}
            crate::link::head_rewrite_keeps(*self, g1, id, dir, kind, new_head);
            assert forall|k: NodeKind| #[trigger] self.books(k) == g0.books(k) by {
                assert(self.books(k) == g1.books(k));
                assert(g1.books(k) == g0.books(k));
            }
            assert forall|n: NodeId| #[trigger] g0.spec_live(n) implies ({
                &&& self.cell_at(n).body == g0.cell_at(n).body
                &&& self.hdr(n).kind == g0.hdr(n).kind
                &&& self.hdr(n).flags == g0.hdr(n).flags
                &&& self.hdr(n).next_dying == g0.hdr(n).next_dying
                &&& self.hdr(n).owner == g0.hdr(n).owner
            }) by {
                assert(g1.spec_live(n));
            }
        }
    }

    /// Take an edge out of both of its lists and free it.
    #[verifier::rlimit(30)]
    fn cut(&mut self, ei: u32, kind: EdgeKind)
        requires
            old(self).wf(),
            old(self)@.edges.contains_key(ei),
            old(self)@.edges[ei].kind == kind,
            old(self).seq < u64::MAX,
        ensures
            final(self).wf(),
            final(self)@ == old(self)@.cut(ei),
            final(self).edges.live + 1 == old(self).edges.live,
            forall|k: NodeKind| #[trigger] final(self).books(k) == old(self).books(k),
            final(self)@.since(old(self)@),
    {
        let ghost g0 = *self;
        let ghost v = self@;
        let e: Edge = *self.edges.at(ei);
        proof {
            assert(v.edge_ok(ei));
            list_members_live(g0, e.src, Dir::Out, kind);
            list_members_live(g0, e.dst, Dir::In, kind);
        }
        self.unthread(e.src, Dir::Out, kind, ei);
        let ghost g1 = *self;
        proof {
            unthreaded_other_way(g0, g1, e.src, e.dst, kind);
        }
        self.unthread(e.dst, Dir::In, kind, ei);
        let ghost g2 = *self;
        proof {
            assert(g2.edges.books().gens[ei as int] == g0.edges.books().gens[ei as int]);
        }
        self.edges.free(ei);
        let ghost g3 = *self;
        self.seq = self.seq + 1;
        proof {
            crate::arena::free_keeps_books(g2.edges.books(), ei);
            crate::arena::free_to_stock(g2.edges.books(), ei);
            cut_chain(g0, g1, g2, g3, *self, e.src, kind, e.dst);
            cut_view(g0, g1, g2, *self, ei);
        }
    }

    /// Remove an edge, performing the bookkeeping its kind implies. Keeping
    /// that bookkeeping here, in the single place edges disappear, is what
    /// keeps the derived indices honest during teardown.
    pub fn unlink(&mut self, id: EdgeId) -> (r: Result<()>)
        requires
            old(self).wf(),
            old(self).seq < u64::MAX,
        ensures
            final(self).wf(),
            !old(self)@.has_edge(id) ==> r == Err::<(), GraphError>(GraphError::StaleEdge(id))
                && *final(self) == *old(self),
            old(self)@.has_edge(id) ==> r == Ok::<(), GraphError>(()) && final(self)@ == old(self)@.unlink(id.idx())
                && final(self).edges.live + 1 == old(self).edges.live,
            forall|k: NodeKind| #[trigger] final(self).books(k) == old(self).books(k),
            final(self)@.since(old(self)@),
    {
        let ei: u32 = id.idx();
        let kind: Option<EdgeKind> = match self.edges.get(ei, id.generation()) {
            Some(e) => e.edge_kind(),
            None => return Err(GraphError::StaleEdge(id)),
        };
        proof {
            assert(self.edge_live(ei));
        }
        match kind {
            None => return Err(GraphError::StaleEdge(id)),
            Some(k) => {
                let ghost g0 = *self;
                self.detach(ei, k);
                let ghost g1 = *self;
                self.cut(ei, k);
                assert forall|k: NodeKind| #[trigger] self.books(k) == g0.books(k) by {
                    assert(self.books(k) == g1.books(k));
                    assert(g1.books(k) == g0.books(k));
                }
                Ok(())
            },
        }
    }
}

/// The members of a list of a well-formed graph are live, and its links ring.
pub proof fn list_members_live(g: Graph, id: NodeId, dir: Dir, kind: EdgeKind)
    requires
        g.wf(),
        g.spec_live(id),
    ensures
        g.edges.is_ring(g.hdr(id).spec_head(dir, kind), dir),
        g@.list(id, dir, kind) == g.edges.list(g.hdr(id).spec_head(dir, kind), dir),
        g@.list_ok((id, dir, kind)),
        forall|i: int|
            0 <= i < g@.list(id, dir, kind).len() ==> g.edge_live(
                #[trigger] g@.list(id, dir, kind)[i],
            ),
        g.hdr(id).spec_head(dir, kind) == 0 <==> g@.list(id, dir, kind).len() == 0,
        g@.list(id, dir, kind).len() > 0 ==> g@.list(id, dir, kind)[0] == g.hdr(id).spec_head(
            dir,
            kind,
        ),
{
    let key: ListKey = (id, dir, kind);
    let s = g@.lists[key];
    assert(g@.lists.contains_key(key));
    assert(g@.list_ok(key));
    assert(g.edges.is_ring(g.hdr(id).spec_head(dir, kind), dir));
    assert forall|i: int| 0 <= i < s.len() implies g.edge_live(#[trigger] s[i]) by {
        assert(g@.edges.contains_key(s[i]));
    }
    crate::link::list_starts_at_head(g.edges, g.hdr(id).spec_head(dir, kind), dir);
}

/// Splicing an out-list leaves every in-list alone.
proof fn unthreaded_other_way(g0: Graph, g1: Graph, src: NodeId, dst: NodeId, kind: EdgeKind)
    requires
        g0.wf(),
        g0.spec_live(src),
        g0.spec_live(dst),
        g1.same_but_head(g0, src, Dir::Out, kind),
        relinked(g0.edges.slots@, g1.edges.slots@, Dir::Out, g0@.list(src, Dir::Out, kind)),
    ensures
        g1.edges.is_ring(g1.hdr(dst).spec_head(Dir::In, kind), Dir::In),
        g1@.list(dst, Dir::In, kind) == g0@.list(dst, Dir::In, kind),
        forall|i: int|
            0 <= i < g1@.list(dst, Dir::In, kind).len() ==> g1.edge_live(
                #[trigger] g1@.list(dst, Dir::In, kind)[i],
            ),
{
    list_members_live(g0, dst, Dir::In, kind);
    let head = g0.hdr(dst).spec_head(Dir::In, kind);
    let s = g0.edges.list(head, Dir::In);
    assert(g1.hdr(dst).spec_head(Dir::In, kind) == head);
    assert forall|m: u32| #[trigger] g0.edge_live(m) implies g1.edge_live(m)
        && g1.edges.slots@[m as int].spec_next(Dir::In) == g0.edges.slots@[m as int].spec_next(
        Dir::In,
    ) && g1.edges.slots@[m as int].spec_prev(Dir::In) == g0.edges.slots@[m as int].spec_prev(
        Dir::In,
    ) by {
        let b = g1.edges.slots@[m as int];
        assert(b == g0.edges.slots@[m as int].with_next(Dir::Out, b.spec_next(Dir::Out)).with_prev(
            Dir::Out,
            b.spec_prev(Dir::Out),
        ));
    }
    crate::link::list_frame(g0.edges, g1.edges, head, Dir::In);
    assert(g1.spec_live(dst));
    assert(g1@.lists[(dst, Dir::In, kind)] == s);
}

/// What the steps of a cut did to the nodes, put together.
proof fn cut_chain(
    g0: Graph,
    g1: Graph,
    g2: Graph,
    g3: Graph,
    g: Graph,
    src: NodeId,
    kind: EdgeKind,
    dst: NodeId,
)
    requires
        g0.arenas_ok(),
        g0.spec_live(src),
        g0.spec_live(dst),
        g1.same_but_head(g0, src, Dir::Out, kind),
        g2.same_but_head(g1, dst, Dir::In, kind),
        g3 == (Graph { edges: g3.edges, ..g2 }),
        g3.edges.wf(),
        g == (Graph { seq: g.seq, ..g3 }),
    ensures
        g.arenas_ok(),
        g.dying_head == g0.dying_head,
        g.root_id == g0.root_id,
        forall|k: NodeKind| #[trigger] g.books(k) == g0.books(k),
        forall|n: NodeId| #[trigger] g.spec_live(n) == g0.spec_live(n),
        forall|n: NodeId| #[trigger]
            g0.spec_live(n) ==> {
                &&& g.cell_at(n).body == g0.cell_at(n).body
                &&& g.hdr(n).kind == g0.hdr(n).kind
                &&& g.hdr(n).flags == g0.hdr(n).flags
                &&& g.hdr(n).next_dying == g0.hdr(n).next_dying
                &&& g.hdr(n).owner == g0.hdr(n).owner
            },
        forall|n: NodeId, d: Dir, k: EdgeKind|
            g0.spec_live(n) && !(n == src && d == Dir::Out && k == kind) && !(n == dst && d
                == Dir::In && k == kind) ==> #[trigger] g.hdr(n).spec_head(d, k) == g0.hdr(
                n,
            ).spec_head(d, k),
        g.hdr(src).spec_head(Dir::Out, kind) == g1.hdr(src).spec_head(Dir::Out, kind),
        g.hdr(dst).spec_head(Dir::In, kind) == g2.hdr(dst).spec_head(Dir::In, kind),
{
    assert(g1.spec_live(src) && g2.spec_live(src) && g1.spec_live(dst) && g2.spec_live(dst));
    assert(g2.hdr(src).spec_head(Dir::Out, kind) == g1.hdr(src).spec_head(Dir::Out, kind));
    assert forall|n: NodeId| #[trigger] g.spec_live(n) == g2.spec_live(n) && g.cell_at(n)
        == g2.cell_at(n) by {}
    assert(g.cell_at(src) == g2.cell_at(src) && g.cell_at(dst) == g2.cell_at(dst));
    assert forall|k: NodeKind| #[trigger] g.books(k) == g0.books(k) by {
        assert(g.books(k) == g2.books(k));
        assert(g2.books(k) == g1.books(k));
    }
    assert forall|k: NodeKind| #[trigger] g.books(k).wf() by {
        assert(g.books(k) == g0.books(k));
        assert(g0.books(k).wf());
    }
    assert forall|n: NodeId| #[trigger] g.spec_live(n) == g0.spec_live(n) by {
        assert(g.spec_live(n) == g2.spec_live(n));
        assert(g2.spec_live(n) == g1.spec_live(n));
    }
    assert forall|n: NodeId| #[trigger] g0.spec_live(n) implies ({
        &&& g.cell_at(n).body == g0.cell_at(n).body
        &&& g.hdr(n).kind == g0.hdr(n).kind
        &&& g.hdr(n).flags == g0.hdr(n).flags
        &&& g.hdr(n).next_dying == g0.hdr(n).next_dying
        &&& g.hdr(n).owner == g0.hdr(n).owner
    }) by {
        assert(g1.spec_live(n));
        assert(g2.spec_live(n));
        assert(g.cell_at(n) == g2.cell_at(n));
    }
    assert forall|n: NodeId, d: Dir, k: EdgeKind|
        g0.spec_live(n) && !(n == src && d == Dir::Out && k == kind) && !(n == dst && d == Dir::In
            && k == kind) implies #[trigger] g.hdr(n).spec_head(d, k) == g0.hdr(n).spec_head(
        d,
        k,
    ) by {
        assert(g1.spec_live(n));
        assert(g2.spec_live(n));
        assert(g.cell_at(n) == g2.cell_at(n));
        assert(g2.hdr(n).spec_head(d, k) == g1.hdr(n).spec_head(d, k));
        assert(g1.hdr(n).spec_head(d, k) == g0.hdr(n).spec_head(d, k));
    }
}

/// The arena after an edge was unthreaded and freed holds the cut graph.
#[verifier::spinoff_prover]
#[verifier::rlimit(50)]
proof fn cut_view(g0: Graph, g1: Graph, g2: Graph, g: Graph, ei: u32)
    requires
        g0.wf(),
        g0@.edges.contains_key(ei),
        ({
            let x = g0@.edges[ei];
            let (src, dst, kind) = (x.src, x.dst, x.kind);
            &&& relinked(
                g0.edges.slots@,
                g1.edges.slots@,
                Dir::Out,
                g0@.list(src, Dir::Out, kind),
            )
            &&& g1.edges.is_ring(g.hdr(src).spec_head(Dir::Out, kind), Dir::Out)
            &&& g1.edges.list(g.hdr(src).spec_head(Dir::Out, kind), Dir::Out) == without(
                g0@.list(src, Dir::Out, kind),
                ei,
            )
            &&& relinked(g1.edges.slots@, g2.edges.slots@, Dir::In, g0@.list(dst, Dir::In, kind))
            &&& g2.edges.is_ring(g.hdr(dst).spec_head(Dir::In, kind), Dir::In)
            &&& g2.edges.list(g.hdr(dst).spec_head(Dir::In, kind), Dir::In) == without(
                g0@.list(dst, Dir::In, kind),
                ei,
            )
            &&& forall|n: NodeId, d: Dir, k: EdgeKind|
                g0.spec_live(n) && !(n == src && d == Dir::Out && k == kind) && !(n == dst && d
                    == Dir::In && k == kind) ==> #[trigger] g.hdr(n).spec_head(d, k) == g0.hdr(
                    n,
                ).spec_head(d, k)
        }),
        g.edges.slots@ == g2.edges.slots@.update(ei as int, g.edges.slots@[ei as int]),
        !g.edges.slots@[ei as int].spec_is_live(),
        g.arenas_ok(),
        g.edges.books().stock() == g0.edges.books().stock().after_free(ei),
        forall|k: NodeKind| #[trigger] g.books(k) == g0.books(k),
        forall|n: NodeId| #[trigger] g.spec_live(n) == g0.spec_live(n),
        forall|n: NodeId| #[trigger]
            g0.spec_live(n) ==> {
                &&& g.cell_at(n).body == g0.cell_at(n).body
                &&& g.hdr(n).kind == g0.hdr(n).kind
                &&& g.hdr(n).flags == g0.hdr(n).flags
                &&& g.hdr(n).next_dying == g0.hdr(n).next_dying
                &&& g.hdr(n).owner == g0.hdr(n).owner
            },
        g.seq == g0.seq + 1,
        g.dying_head == g0.dying_head,
        g.root_id == g0.root_id,
    ensures
        g.wf(),
        g@ == g0@.cut(ei),
{
    let v0 = g0@;
    let v = g@;
    let w = v0.cut(ei);
    let x = v0.edges[ei];
    let (e0, e1, e2, e3) = (g0.edges, g1.edges, g2.edges, g.edges);
    let key_out: ListKey = (x.src, Dir::Out, x.kind);
    let key_in: ListKey = (x.dst, Dir::In, x.kind);
    assert(v0.edge_ok(ei));
    assert forall|e: u32| e != ei && e < MAX_EDGES implies ({
        let (a, b) = (e0.slots@[e as int], #[trigger] e3.slots@[e as int]);
        &&& b.src == a.src
        &&& b.dst == a.dst
        &&& b.kind == a.kind
        &&& b.data == a.data
        &&& b.generation == a.generation
    }) by {
        assert(e2.slots@[e as int].src == e1.slots@[e as int].src);
        assert(e1.slots@[e as int].src == e0.slots@[e as int].src);
    }
    assert(v.edges.dom() =~= w.edges.dom()) by {
        assert forall|e: u32| v.edges.contains_key(e) <==> w.edges.contains_key(e) by {
            if e != ei && e < MAX_EDGES {
                assert(e3.slots@[e as int].generation == e0.slots@[e as int].generation);
            }
        }
    }
    assert forall|e: u32| v.edges.contains_key(e) implies v.edges[e] == w.edges[e] by {
        assert(e3.slots@[e as int].generation == e0.slots@[e as int].generation);
    }
    assert(v.edges =~= w.edges);
    assert(v.nodes.dom() =~= w.nodes.dom());
    assert forall|n: NodeId| v.nodes.contains_key(n) implies v.nodes[n] == w.nodes[n] by {
        assert(g0.spec_live(n));
    }
    assert(v.nodes =~= w.nodes);
    list_members_live(g0, x.src, Dir::Out, x.kind);
    list_members_live(g0, x.dst, Dir::In, x.kind);
    let so = v0.lists[key_out];
    let si = v0.lists[key_in];
    crate::slab::without_facts(so, ei);
    crate::slab::without_facts(si, ei);
    assert forall|key: ListKey| g0.spec_live(key.0) implies #[trigger] g.edges.is_ring(
        g.hdr(key.0).spec_head(key.1, key.2),
        key.1,
    ) && g.edges.list(g.hdr(key.0).spec_head(key.1, key.2), key.1) == w.lists[key] by {
        let head = g.hdr(key.0).spec_head(key.1, key.2);
        list_members_live(g0, key.0, key.1, key.2);
        let s = v0.lists[key];
        if key == key_out {
            let t = e1.list(head, Dir::Out);
            assert forall|i: int| 0 <= i < t.len() implies ({
                let m = #[trigger] t[i];
                e3.slots@[m as int].spec_next(Dir::Out) == e1.slots@[m as int].spec_next(Dir::Out)
                    && e3.slots@[m as int].spec_prev(Dir::Out) == e1.slots@[m as int].spec_prev(
                    Dir::Out,
                )
            }) by {
                let m = t[i];
                assert(t.contains(m));
                assert(m != ei && so.contains(m));
                assert(0 < m < MAX_EDGES) by {
                    assert(e1.is_ring(head, Dir::Out));
                }
                assert(e2.slots@[m as int] == e1.slots@[m as int].with_next(
                    Dir::In,
                    e2.slots@[m as int].spec_next(Dir::In),
                ).with_prev(Dir::In, e2.slots@[m as int].spec_prev(Dir::In)));
            }
            crate::link::list_frame(e1, e3, head, Dir::Out);
        } else if key == key_in {
            let t = e2.list(head, Dir::In);
            assert forall|i: int| 0 <= i < t.len() implies ({
                let m = #[trigger] t[i];
                e3.slots@[m as int].spec_next(Dir::In) == e2.slots@[m as int].spec_next(Dir::In)
                    && e3.slots@[m as int].spec_prev(Dir::In) == e2.slots@[m as int].spec_prev(
                    Dir::In,
                )
            }) by {
                let m = t[i];
                assert(t.contains(m));
                assert(m != ei && si.contains(m));
                assert(0 < m < MAX_EDGES) by {
                    assert(e2.is_ring(head, Dir::In));
                }
            }
            crate::link::list_frame(e2, e3, head, Dir::In);
        } else {
            assert(head == g0.hdr(key.0).spec_head(key.1, key.2));
            assert forall|i: int| 0 <= i < s.len() implies ({
                let m = #[trigger] s[i];
                e3.slots@[m as int].spec_next(key.1) == e0.slots@[m as int].spec_next(key.1)
                    && e3.slots@[m as int].spec_prev(key.1) == e0.slots@[m as int].spec_prev(key.1)
            }) by {
                let m = s[i];
                assert(g0.edge_live(m));
                assert(v0.edges[m].kind == key.2 && v0.edges[m].endpoint(key.1) == key.0);
                assert(m != ei);
                if key.1 == Dir::Out {
                    assert(!so.contains(m)) by {
                        if so.contains(m) {
                            let j = choose|j: int| 0 <= j < so.len() && so[j] == m;
                            assert(v0.edges[so[j]].kind == key_out.2);
                        }
                    }
                    assert(e1.slots@[m as int] == e0.slots@[m as int]);
                    assert(e2.slots@[m as int] == e1.slots@[m as int].with_next(
                        Dir::In,
                        e2.slots@[m as int].spec_next(Dir::In),
                    ).with_prev(Dir::In, e2.slots@[m as int].spec_prev(Dir::In)));
                } else {
                    assert(!si.contains(m)) by {
                        if si.contains(m) {
                            let j = choose|j: int| 0 <= j < si.len() && si[j] == m;
                            assert(v0.edges[si[j]].kind == key_in.2);
                        }
                    }
                    assert(e2.slots@[m as int] == e1.slots@[m as int]);
                    assert(e1.slots@[m as int] == e0.slots@[m as int].with_next(
                        Dir::Out,
                        e1.slots@[m as int].spec_next(Dir::Out),
                    ).with_prev(Dir::Out, e1.slots@[m as int].spec_prev(Dir::Out)));
                }
            }
            crate::link::list_frame(e0, e3, head, key.1);
        }
    }
    assert(v.lists.dom() =~= w.lists.dom());
    assert forall|key: ListKey| v.lists.contains_key(key) implies v.lists[key] == w.lists[key] by {
        assert(g0.spec_live(key.0));
        assert(g.edges.is_ring(g.hdr(key.0).spec_head(key.1, key.2), key.1));
    }
    assert(v.lists =~= w.lists);
    assert(g.rings_ok()) by {
        assert forall|n: NodeId, d: Dir, k: EdgeKind|
            g.spec_live(n) implies #[trigger] g.edges.is_ring(g.hdr(n).spec_head(d, k), d) by {
            let key: ListKey = (n, d, k);
            assert(g0.spec_live(key.0));
            assert(g.edges.is_ring(g.hdr(key.0).spec_head(key.1, key.2), key.1));
        }
    }
    assert(g.headers_ok()) by {
        assert forall|n: NodeId| #[trigger] g.spec_live(n) implies g.hdr(n).kind
            == n.kind_raw() by {
            assert(g0.spec_live(n));
        }
    }
    assert(g.edge_kinds_ok()) by {
        assert forall|e: u32| #[trigger]
            g.edge_live(e) implies g.edges.slots@[e as int].spec_edge_kind() is Some by {
            if e != ei {
                assert(e3.slots@[e as int].generation == e0.slots@[e as int].generation);
                assert(g0.edge_live(e));
            }
        }
    }
    assert(v.node_stock =~= w.node_stock);
    cut_wf(v0, ei);
}

/// Cutting a live edge keeps the view well formed.
pub proof fn cut_wf(v: GraphView, ei: u32)
    requires
        v.wf(),
        v.edges.contains_key(ei),
    ensures
        v.cut(ei).wf(),
{
    let w = v.cut(ei);
    let x = v.edges[ei];
    assert(v.edge_ok(ei));
    let key_out: ListKey = (x.src, Dir::Out, x.kind);
    let key_in: ListKey = (x.dst, Dir::In, x.kind);
    assert(v.lists.contains_key(key_out) && v.lists.contains_key(key_in));
    assert(v.list_ok(key_out) && v.list_ok(key_in));
    crate::slab::without_facts(v.lists[key_out], ei);
    crate::slab::without_facts(v.lists[key_in], ei);
    assert forall|key: ListKey| #[trigger] w.lists.contains_key(key) <==> w.nodes.contains_key(
        key.0,
    ) by {
        assert(v.lists.contains_key(key) <==> v.nodes.contains_key(key.0));
    }
    assert forall|key: ListKey| #[trigger] w.lists.contains_key(key) implies w.list_ok(key) by {
        assert(v.lists.contains_key(key) <==> v.nodes.contains_key(key.0));
        assert(v.list_ok(key));
        let s = v.lists[key];
        let t = w.lists[key];
        assert forall|i: int| 0 <= i < t.len() implies w.edges.contains_key(#[trigger] t[i])
            && w.edges[t[i]].kind == key.2 && w.edges[t[i]].endpoint(key.1) == key.0 by {
            if key == key_out || key == key_in {
                assert(t.contains(t[i]));
                assert(s.contains(t[i]) && t[i] != ei);
                let j = choose|j: int| 0 <= j < s.len() && s[j] == t[i];
                assert(v.edges.contains_key(s[j]));
            } else {
                assert(v.edges.contains_key(s[i]));
            }
        }
    }
    assert forall|e: u32| #[trigger] w.edges.contains_key(e) implies w.edge_ok(e) by {
        assert(v.edges.contains_key(e));
        assert(v.edge_ok(e));
        let y = v.edges[e];
        assert(w.list(y.src, Dir::Out, y.kind).contains(e));
        assert(w.list(y.dst, Dir::In, y.kind).contains(e));
    }
    assert forall|n: NodeId| #[trigger] w.nodes.contains_key(n) implies w.node_ok(n) by {
        assert(v.nodes.contains_key(n));
        assert(v.node_ok(n));
    }
}

} // verus!

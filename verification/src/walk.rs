//! Reading adjacency: first edges, list iteration, bounded walks, and the
//! cursors over every live node and edge.

use vstd::prelude::*;

use crate::body::{AddressSpace, NodeBody, Thread};
use crate::edge::Dir;
use crate::graph::{Graph, Ref};
use crate::id::{EdgeId, EdgeKind, NodeId, NodeKind};
use crate::limits::{MAX_EDGES, MAX_WALK};
use crate::slab::{nexts, EdgeSlab, Slab};
use crate::view::{GraphView, ListKey};

verus! {

/// Iterates one circular adjacency list. Bounded by the arena size so that a
/// corrupted list cannot hang the kernel.
pub struct EdgeIter<'a> {
    pub edges: &'a EdgeSlab,
    pub head: u32,
    pub cur: u32,
    pub dir: Dir,
    pub budget: u32,
}

impl<'a> EdgeIter<'a> {
    /// The edge indices still to come.
    pub open spec fn remaining(self) -> Seq<u32> {
        crate::ring::walk_from(
            nexts(self.edges.slots@, self.dir),
            self.head,
            self.cur,
            self.budget as nat,
        )
    }

    /// Every index still to come is inside the arena.
    pub open spec fn in_arena(self) -> bool {
        forall|i: int| 0 <= i < self.remaining().len() ==> #[trigger] self.remaining()[i] < MAX_EDGES
    }

    pub(crate) fn new(edges: &'a EdgeSlab, head: u32, dir: Dir) -> (r: EdgeIter<'a>)
        ensures
            r.edges == edges,
            r.remaining() == edges.list(head, dir),
    {
        EdgeIter { edges, head, cur: head, dir, budget: MAX_EDGES as u32 }
    }

    pub fn next(&mut self) -> (r: Option<EdgeId>)
        requires
            old(self).in_arena(),
        ensures
            final(self).edges == old(self).edges,
            final(self).in_arena(),
            old(self).remaining().len() == 0 ==> r is None && *final(self) == *old(self),
            old(self).remaining().len() > 0 ==> ({
                let e = old(self).remaining()[0];
                &&& r == Some(EdgeId::spec_new(e, old(self).edges.slots@[e as int].generation))
                &&& final(self).remaining() == old(self).remaining().drop_first()
            }),
    {
        if self.cur == 0 || self.budget == 0 {
            return None;
        }
        let ghost before = self.remaining();
        let i: u32 = self.cur;
        assert(before[0] == i);
        self.budget = self.budget - 1;
        let e = self.edges.at(i);
        let n: u32 = e.next(self.dir);
        self.cur = if n == self.head {
            0
        } else {
            n
        };
        proof {
            assert(self.remaining() =~= before.drop_first());
            assert forall|j: int| 0 <= j < self.remaining().len() implies
                #[trigger] self.remaining()[j] < MAX_EDGES by {
                assert(self.remaining()[j] == before[j + 1]);
            }
        }
        Some(EdgeId::new(i, e.generation))
    }

    /// How many edges are still to come.
    pub fn count(self) -> (r: usize)
        requires
            self.in_arena(),
        ensures
            r == self.remaining().len(),
    {
        let mut it = self;
        let mut n: usize = 0;
        let ghost all = self.remaining();
        proof {
            walk_is_bounded(nexts(self.edges.slots@, self.dir), self.head, self.cur, self.budget as nat);
        }
        loop
            invariant
                it.in_arena(),
                n + it.remaining().len() == all.len(),
                all.len() <= 0xFFFF_FFFF,
            ensures
                n == all.len(),
            decreases it.remaining().len(),
        {
            match it.next() {
                Some(_) => {
                    n = n + 1;
                },
                None => {
                    break;
                },
            }
        }
        n
    }
}

/// A walk is no longer than its budget.
pub proof fn walk_is_bounded(next: Seq<u32>, head: u32, cur: u32, fuel: nat)
    ensures
        crate::ring::walk_from(next, head, cur, fuel).len() <= fuel,
    decreases fuel,
{
    if cur != 0 && fuel != 0 {
        if next[cur as int] != head {
            walk_is_bounded(next, head, next[cur as int], (fuel - 1) as nat);
        }
    }
}

/// Snapshot of an adjacency list, so a caller can walk it while mutating the
/// graph. Sized for the longest list a process's handle table can produce.
pub struct EdgeWalk {
    pub ids: [EdgeId; MAX_WALK],
    pub len: usize,
}

impl EdgeWalk {
    pub open spec fn wf(self) -> bool {
        self.len <= MAX_WALK
    }

    pub open spec fn view(self) -> Seq<EdgeId> {
        self.ids@.subrange(0, self.len as int)
    }

    pub fn into_iter(self) -> (r: EdgeWalkIter)
        requires
            self.wf(),
        ensures
            r.wf(),
            r.remaining() == self@,
    {
        let r = EdgeWalkIter { w: self, at: 0 };
        assert(r.remaining() =~= self@);
        r
    }
}

pub struct EdgeWalkIter {
    pub w: EdgeWalk,
    pub at: usize,
}

impl EdgeWalkIter {
    pub open spec fn wf(self) -> bool {
        self.at <= self.w.len <= MAX_WALK
    }

    pub open spec fn remaining(self) -> Seq<EdgeId> {
        self.w.ids@.subrange(self.at as int, self.w.len as int)
    }

    pub fn next(&mut self) -> (r: Option<EdgeId>)
        requires
            old(self).wf(),
        ensures
            final(self).wf(),
            old(self).remaining().len() == 0 ==> r is None && *final(self) == *old(self),
            old(self).remaining().len() > 0 ==> r == Some(old(self).remaining()[0]) && final(self).remaining() == old(self).remaining().drop_first(),
    {
        if self.at >= self.w.len {
            return None;
        }
        let v = self.w.ids[self.at];
        let ghost before = self.remaining();
        self.at = self.at + 1;
        assert(self.remaining() =~= before.drop_first());
        Some(v)
    }
}

impl GraphView {
    /// The list as a reader sees it: nothing for a node that is not there.
    pub open spec fn list_or_none(self, id: NodeId, dir: Dir, kind: EdgeKind) -> Seq<u32> {
        if self.live(id) {
            self.list(id, dir, kind)
        } else {
            Seq::empty()
        }
    }

    /// The first edge of a list, as an id.
    pub open spec fn first(self, id: NodeId, dir: Dir, kind: EdgeKind) -> Option<EdgeId> {
        if self.live(id) && self.list(id, dir, kind).len() > 0 {
            Some(self.edge_id(self.list(id, dir, kind)[0]))
        } else {
            None
        }
    }

    /// The ids of the first `MAX_WALK` edges of a list.
    pub open spec fn walk(self, id: NodeId, dir: Dir, kind: EdgeKind) -> Seq<EdgeId> {
        let s = self.list_or_none(id, dir, kind);
        let n = if s.len() <= MAX_WALK {
            s.len() as int
        } else {
            MAX_WALK as int
        };
        Seq::new(n as nat, |i: int| self.edge_id(s[i]))
    }
}

impl Graph {
    /// First out-edge of a kind. One array load.
    pub fn first_out(&self, node: NodeId, kind: EdgeKind) -> (r: Option<EdgeId>)
        requires
            self.wf(),
        ensures
            r == self@.first(node, Dir::Out, kind),
            r matches Some(e) ==> self@.has_edge(e) && e.idx() == self@.list(
                node,
                Dir::Out,
                kind,
            )[0],
    {
        self.first_edge(node, Dir::Out, kind)
    }

    /// First in-edge of a kind.
    pub fn first_in(&self, node: NodeId, kind: EdgeKind) -> (r: Option<EdgeId>)
        requires
            self.wf(),
        ensures
            r == self@.first(node, Dir::In, kind),
            r matches Some(e) ==> self@.has_edge(e) && e.idx() == self@.list(
                node,
                Dir::In,
                kind,
            )[0],
    {
        self.first_edge(node, Dir::In, kind)
    }

    fn first_edge(&self, node: NodeId, dir: Dir, kind: EdgeKind) -> (r: Option<EdgeId>)
        requires
            self.wf(),
        ensures
            r == self@.first(node, dir, kind),
            r matches Some(e) ==> self@.has_edge(e) && e.idx() == self@.list(node, dir, kind)[0],
    {
        proof {
            if self.spec_live(node) {
                crate::unlink::list_members_live(*self, node, dir, kind);
            }
        }
        let i: u32 = self.list_head(node, dir, kind);
        if i == 0 {
            None
        } else {
            assert(self.edge_live(i));
            Some(EdgeId::new(i, self.edges.at(i).generation))
        }
    }

    pub fn out_edges(&self, node: NodeId, kind: EdgeKind) -> (r: EdgeIter<'_>)
        ensures
            r.edges == &self.edges,
            r.remaining() == self@.list_or_none(node, Dir::Out, kind),
            self.threaded() ==> r.in_arena(),
            self.wf() ==> r.in_arena(),
    {
        self.edges_of(node, Dir::Out, kind)
    }

    pub fn in_edges(&self, node: NodeId, kind: EdgeKind) -> (r: EdgeIter<'_>)
        ensures
            r.edges == &self.edges,
            r.remaining() == self@.list_or_none(node, Dir::In, kind),
            self.threaded() ==> r.in_arena(),
            self.wf() ==> r.in_arena(),
    {
        self.edges_of(node, Dir::In, kind)
    }

    fn edges_of(&self, node: NodeId, dir: Dir, kind: EdgeKind) -> (r: EdgeIter<'_>)
        ensures
            r.edges == &self.edges,
            r.remaining() == self@.list_or_none(node, dir, kind),
            self.threaded() ==> r.in_arena(),
            self.wf() ==> r.in_arena(),
    {
        let r = EdgeIter::new(&self.edges, self.list_head(node, dir, kind), dir);
        proof {
            if self.wf() {
                wf_is_threaded(*self);
            }
            if self.threaded() && self.spec_live(node) {
                members_live(*self, node, dir, kind);
                assert forall|i: int| 0 <= i < r.remaining().len() implies
                    #[trigger] r.remaining()[i] < MAX_EDGES by {
                    assert(self.edge_live(self@.list(node, dir, kind)[i]));
                }
            }
        }
        r
    }

    /// Copy an adjacency list into a fixed buffer so a caller can iterate it
    /// while mutating the graph. Bounded by `MAX_WALK`; nothing on a fast path
    /// uses this.
    pub fn walk_out(&self, node: NodeId, kind: EdgeKind) -> (r: EdgeWalk)
        requires
            self.wf(),
        ensures
            r.wf(),
            r@ == self@.walk(node, Dir::Out, kind),
    {
        self.walk(node, Dir::Out, kind)
    }

    pub fn walk_in(&self, node: NodeId, kind: EdgeKind) -> (r: EdgeWalk)
        requires
            self.wf(),
        ensures
            r.wf(),
            r@ == self@.walk(node, Dir::In, kind),
    {
        self.walk(node, Dir::In, kind)
    }

    fn walk(&self, node: NodeId, dir: Dir, kind: EdgeKind) -> (r: EdgeWalk)
        requires
            self.wf(),
        ensures
            r.wf(),
            r@ == self@.walk(node, dir, kind),
    {
        let mut it = self.edges_of(node, dir, kind);
        let ghost s = self@.list_or_none(node, dir, kind);
        let mut w = EdgeWalk { ids: [EdgeId::null();MAX_WALK], len: 0 };
        proof {
            if self.spec_live(node) {
                crate::unlink::list_members_live(*self, node, dir, kind);
            }
        }
        loop
            invariant
                self.wf(),
                it.in_arena(),
                it.edges == &self.edges,
                w.len <= MAX_WALK,
                w.len <= s.len(),
                s == self@.list_or_none(node, dir, kind),
                it.remaining() == s.subrange(w.len as int, s.len() as int),
                forall|i: int| 0 <= i < s.len() ==> self.edge_live(#[trigger] s[i]),
                forall|i: int|
                    0 <= i < w.len ==> w.ids@[i] == self@.edge_id(#[trigger] s[i]),
            ensures
                w.len <= MAX_WALK,
                w.len <= s.len(),
                w.len == s.len() || w.len == MAX_WALK,
                forall|i: int|
                    0 <= i < w.len ==> w.ids@[i] == self@.edge_id(#[trigger] s[i]),
            decreases MAX_WALK - w.len,
        {
            if w.len == MAX_WALK {
                break;
            }
            let ghost n0 = w.len as int;
            match it.next() {
                None => {
                    break;
                },
                Some(id) => {
                    proof {
                        let rest = s.subrange(n0, s.len() as int);
                        assert(rest[0] == s[n0]);
                        assert(self.edge_live(s[n0]));
                        assert(rest.drop_first() =~= s.subrange(n0 + 1, s.len() as int));
                    }
                    w.ids[w.len] = id;
                    w.len = w.len + 1;
                },
            }
        }
        assert(w@ =~= self@.walk(node, dir, kind));
        w
    }

    pub fn ready_edge(&self, t: Ref<Thread>) -> (r: Option<EdgeId>)
        requires
            self.wf(),
        ensures
            r == self@.first(t.id(), Dir::In, EdgeKind::Ready),
            r matches Some(e) ==> self@.has_edge(e) && e.idx() == self@.list(
                t.id(),
                Dir::In,
                EdgeKind::Ready,
            )[0],
    {
        self.first_in(t.id(), EdgeKind::Ready)
    }

    pub fn waiting_edge(&self, t: Ref<Thread>) -> (r: Option<EdgeId>)
        requires
            self.wf(),
        ensures
            r == self@.first(t.id(), Dir::Out, EdgeKind::Waiting),
            r matches Some(e) ==> self@.has_edge(e) && e.idx() == self@.list(
                t.id(),
                Dir::Out,
                EdgeKind::Waiting,
            )[0],
    {
        self.first_out(t.id(), EdgeKind::Waiting)
    }

    /// The address space a thread runs in.
    pub fn space_of(&self, t: Ref<Thread>) -> (r: Option<Ref<AddressSpace>>)
        requires
            self.wf(),
        ensures
            r is Some <==> self@.list_or_none(t.id(), Dir::Out, EdgeKind::InSpace).len() > 0,
            r matches Some(s) ==> s.id() == self@.edges[self@.list(
                t.id(),
                Dir::Out,
                EdgeKind::InSpace,
            )[0]].dst && self@.live(s.id()),
    {
        let e = match self.first_out(t.id(), EdgeKind::InSpace) {
            Some(e) => e,
            None => return None,
        };
        proof {
            crate::unlink::list_members_live(*self, t.id(), Dir::Out, EdgeKind::InSpace);
            assert(self@.edges.contains_key(e.idx()));
            assert(self@.edge_ok(e.idx()));
        }
        match self.edge(e) {
            Some(x) => Some(Ref::from_raw(x.dst)),
            None => None,
        }
    }

    // ------------------------------------------------------- every node ---

    /// The live ids of one kind, in arena order.
    pub open spec fn live_ids(self, kind: NodeKind) -> Seq<NodeId> {
        let s = crate::arena::live_below(self.books(kind).gens, Self::cap(kind));
        Seq::new(
            s.len(),
            |i: int| NodeId::spec_new(kind, s[i], self.cell(kind, s[i] as int).generation),
        )
    }

    /// Every live id: kind by kind, each in arena order.
    pub open spec fn all_live_ids(self) -> Seq<NodeId> {
        self.live_ids(NodeKind::Root) + self.live_ids(NodeKind::Cpu) + self.live_ids(
            NodeKind::Process,
        ) + self.live_ids(NodeKind::Thread) + self.live_ids(NodeKind::AddressSpace)
            + self.live_ids(NodeKind::MemoryObject) + self.live_ids(NodeKind::Endpoint)
            + self.live_ids(NodeKind::Device)
    }

    /// Every live node, in arena order. Checker and snapshot only.
    pub fn live_nodes(&self) -> (r: Vec<NodeId>)
        requires
            self.arenas_ok(),
        ensures
            r@ == self.all_live_ids(),
    {
        assert forall|k: NodeKind| #[trigger] self.books(k).wf() by {}
        let mut out: Vec<NodeId> = Vec::new();
        assert(self.books(NodeKind::Root).wf());
        push_live(&mut out, &self.roots);
        assert(self.books(NodeKind::Cpu).wf());
        push_live(&mut out, &self.cpus);
        assert(self.books(NodeKind::Process).wf());
        push_live(&mut out, &self.processes);
        assert(self.books(NodeKind::Thread).wf());
        push_live(&mut out, &self.threads);
        assert(self.books(NodeKind::AddressSpace).wf());
        push_live(&mut out, &self.spaces);
        assert(self.books(NodeKind::MemoryObject).wf());
        push_live(&mut out, &self.memobjs);
        assert(self.books(NodeKind::Endpoint).wf());
        push_live(&mut out, &self.endpoints);
        assert(self.books(NodeKind::Device).wf());
        push_live(&mut out, &self.devices);
        proof {
            assert(slab_ids(self.roots) =~= self.live_ids(NodeKind::Root));
            assert(slab_ids(self.cpus) =~= self.live_ids(NodeKind::Cpu));
            assert(slab_ids(self.processes) =~= self.live_ids(NodeKind::Process));
            assert(slab_ids(self.threads) =~= self.live_ids(NodeKind::Thread));
            assert(slab_ids(self.spaces) =~= self.live_ids(NodeKind::AddressSpace));
            assert(slab_ids(self.memobjs) =~= self.live_ids(NodeKind::MemoryObject));
            assert(slab_ids(self.endpoints) =~= self.live_ids(NodeKind::Endpoint));
            assert(slab_ids(self.devices) =~= self.live_ids(NodeKind::Device));
            assert(Seq::<NodeId>::empty() + self.live_ids(NodeKind::Root) =~= self.live_ids(
                NodeKind::Root,
            ));
        }
        out
    }

    /// The live edges, in arena order, as ids.
    pub open spec fn all_live_edges(self) -> Seq<EdgeId> {
        let s = crate::arena::live_below(self.edges.books().gens, MAX_EDGES as int);
        Seq::new(
            s.len(),
            |i: int| EdgeId::spec_new(s[i], self.edges.slots@[s[i] as int].generation),
        )
    }

    /// Every live edge id.
    pub fn live_edges(&self) -> (r: Vec<EdgeId>)
        requires
            self.edges.wf(),
        ensures
            r@ == self.all_live_edges(),
    {
        let idx = self.edges.live_indices();
        let mut out: Vec<EdgeId> = Vec::new();
        let mut i: usize = 0;
        proof {
            crate::arena::live_below_lists(self.edges.books().gens, MAX_EDGES as int);
        }
        while i < idx.len()
            invariant
                i <= idx.len(),
                idx@ == crate::arena::live_below(self.edges.books().gens, MAX_EDGES as int),
                forall|j: int| 0 <= j < idx@.len() ==> #[trigger] idx@[j] < MAX_EDGES,
                out@ == self.all_live_edges().subrange(0, i as int),
            decreases idx.len() - i,
        {
            let e: u32 = idx[i];
            out.push(EdgeId::new(e, self.edges.at(e).generation));
            i = i + 1;
            assert(out@ =~= self.all_live_edges().subrange(0, i as int));
        }
        assert(out@ =~= self.all_live_edges());
        out
    }
}

/// A well-formed graph is one whatever its bodies claim.
pub proof fn wf_is_threaded(g: Graph)
    requires
        g.wf(),
    ensures
        g.threaded(),
{
    assert forall|id: NodeId| #[trigger] g@.nodes.contains_key(id) implies g@.kind_ok(id) by {
        assert(g@.node_ok(id));
    }
}

/// The members of a list are live, and its links ring.
pub proof fn members_live(g: Graph, id: NodeId, dir: Dir, kind: EdgeKind)
    requires
        g.threaded(),
        g.spec_live(id),
    ensures
        g.edges.is_ring(g.hdr(id).spec_head(dir, kind), dir),
        g@.list(id, dir, kind) == g.edges.list(g.hdr(id).spec_head(dir, kind), dir),
        g@.list_ok((id, dir, kind)),
        forall|i: int|
            0 <= i < g@.list(id, dir, kind).len() ==> g.edge_live(
                #[trigger] g@.list(id, dir, kind)[i],
            ),
        g.hdr(id).spec_head(dir, kind) == 0 <==> g@.list(id, dir, kind).len() == 0,
        g@.list(id, dir, kind).len() > 0 ==> g@.list(id, dir, kind)[0] == g.hdr(id).spec_head(
            dir,
            kind,
        ),
        g@.list(id, dir, kind).len() < MAX_EDGES,
{
    let key: ListKey = (id, dir, kind);
    let s = g@.lists[key];
    assert(g@.lists.contains_key(key));
    assert(g@.list_ok(key));
    assert(g.edges.is_ring(g.hdr(id).spec_head(dir, kind), dir));
    assert forall|i: int| 0 <= i < s.len() implies g.edge_live(#[trigger] s[i]) by {
        assert(g@.edges.contains_key(s[i]));
    }
    crate::link::list_starts_at_head(g.edges, g.hdr(id).spec_head(dir, kind), dir);
    crate::ring::ring_is_list(
        nexts(g.edges.slots@, dir),
        crate::slab::prevs(g.edges.slots@, dir),
        s,
    );
}

/// Two listings of ids of different kinds, one after the other.
proof fn ids_in_turn(a: Seq<NodeId>, b: Seq<NodeId>, k: NodeKind)
    requires
        a.no_duplicates(),
        b.no_duplicates(),
        forall|i: int|
            0 <= i < a.len() ==> (#[trigger] a[i]).kind() is Some && a[i].kind()->Some_0.spec_code()
                < k.spec_code(),
        forall|i: int| 0 <= i < b.len() ==> (#[trigger] b[i]).kind() == Some(k),
    ensures
        (a + b).no_duplicates(),
        forall|i: int|
            0 <= i < (a + b).len() ==> (#[trigger] (a + b)[i]).kind() is Some
                && (a + b)[i].kind()->Some_0.spec_code() <= k.spec_code(),
        forall|x: NodeId| #[trigger] (a + b).contains(x) <==> a.contains(x) || b.contains(x),
{
    let c = a + b;
    assert forall|i: int| 0 <= i < c.len() implies (#[trigger] c[i]).kind() is Some
        && c[i].kind()->Some_0.spec_code() <= k.spec_code() by {
        if i < a.len() {
            assert(c[i] == a[i]);
        } else {
            assert(c[i] == b[i - a.len()]);
        }
    }
    assert forall|i: int, j: int| 0 <= i < c.len() && 0 <= j < c.len() && i != j implies c[i]
        != c[j] by {
        let ai = if i < a.len() {
            a[i]
        } else {
            b[i - a.len()]
        };
        let aj = if j < a.len() {
            a[j]
        } else {
            b[j - a.len()]
        };
        assert(c[i] == ai && c[j] == aj);
    }
    assert forall|x: NodeId| #[trigger] c.contains(x) <==> a.contains(x) || b.contains(x) by {
        if a.contains(x) {
            let i = a.index_of(x);
            assert(c[i] == x);
        }
        if b.contains(x) {
            let i = b.index_of(x);
            assert(c[a.len() + i] == x);
        }
        if c.contains(x) {
            let i = c.index_of(x);
            if i < a.len() {
                assert(a[i] == x);
            } else {
                assert(b[i - a.len()] == x);
            }
        }
    }
}

/// The listing of one kind holds its live ids, each once.
pub proof fn one_kind_listed(g: Graph, k: NodeKind)
    requires
        g.arenas_ok(),
    ensures
        g.live_ids(k).no_duplicates(),
        forall|i: int| 0 <= i < g.live_ids(k).len() ==> (#[trigger] g.live_ids(k)[i]).kind() == Some(k),
        forall|x: NodeId| #[trigger]
            g.live_ids(k).contains(x) <==> g.spec_live(x) && x.kind() == Some(k),
{
    let b = g.books(k);
    assert(b.wf());
    let cap = Graph::cap(k);
    assert(b.gens.len() == cap);
    crate::arena::live_below_lists(b.gens, cap);
    let s = crate::arena::live_below(b.gens, cap);
    let ids = g.live_ids(k);
    assert forall|i: int| 0 <= i < ids.len() implies (#[trigger] ids[i]).kind() == Some(k)
        && ids[i].idx() == s[i] && ids[i].generation() == g.cell(k, s[i] as int).generation
        && g.spec_live(ids[i]) by {
        assert(crate::arena::is_odd(b.gens[s[i] as int]));
        assert(b.gens[s[i] as int] == g.cell(k, s[i] as int).generation);
        crate::id::node_id_round_trip(k, s[i], g.cell(k, s[i] as int).generation);
    }
    assert forall|i: int, j: int| 0 <= i < ids.len() && 0 <= j < ids.len() && i != j implies ids[i]
        != ids[j] by {
        assert(ids[i].idx() == s[i] && ids[j].idx() == s[j]);
        if i < j {
            assert(s[i] < s[j]);
        } else {
            assert(s[j] < s[i]);
        }
    }
    assert forall|x: NodeId| #[trigger] ids.contains(x) <==> g.spec_live(x) && x.kind() == Some(
        k,
    ) by {
        if ids.contains(x) {
            let i = ids.index_of(x);
            assert(ids[i] == x);
        }
        if g.spec_live(x) && x.kind() == Some(k) {
            let i = x.idx();
            assert(b.gens[i as int] == g.cell(k, i as int).generation);
            assert(s.contains(i));
            let j = s.index_of(i);
            assert(s[j] == i);
            crate::id::node_id_parts(x);
            assert(ids[j] == x);
        }
    }
}

/// A kind has no more live nodes than slots.
pub proof fn one_kind_bound(g: Graph, k: NodeKind)
    requires
        g.arenas_ok(),
    ensures
        g.live_ids(k).len() <= Graph::cap(k),
{
    let b = g.books(k);
    assert(b.wf());
    assert(b.gens.len() == Graph::cap(k));
    crate::arena::live_below_lists(b.gens, Graph::cap(k));
    crate::arena::count_live_bound(b.gens.subrange(0, Graph::cap(k)));
}

/// The listing of every live node holds each live id once, and nothing else.
pub proof fn every_live_node_is_listed(g: Graph)
    requires
        g.arenas_ok(),
    ensures
        g.all_live_ids().no_duplicates(),
        forall|x: NodeId| #[trigger] g.all_live_ids().contains(x) <==> g.spec_live(x),
{
    let (r, c, p, t) = (
        g.live_ids(NodeKind::Root),
        g.live_ids(NodeKind::Cpu),
        g.live_ids(NodeKind::Process),
        g.live_ids(NodeKind::Thread),
    );
    let (s, m, e, d) = (
        g.live_ids(NodeKind::AddressSpace),
        g.live_ids(NodeKind::MemoryObject),
        g.live_ids(NodeKind::Endpoint),
        g.live_ids(NodeKind::Device),
    );
    one_kind_listed(g, NodeKind::Root);
    one_kind_listed(g, NodeKind::Cpu);
    one_kind_listed(g, NodeKind::Process);
    one_kind_listed(g, NodeKind::Thread);
    one_kind_listed(g, NodeKind::AddressSpace);
    one_kind_listed(g, NodeKind::MemoryObject);
    one_kind_listed(g, NodeKind::Endpoint);
    one_kind_listed(g, NodeKind::Device);
    ids_in_turn(r, c, NodeKind::Cpu);
    ids_in_turn(r + c, p, NodeKind::Process);
    ids_in_turn(r + c + p, t, NodeKind::Thread);
    ids_in_turn(r + c + p + t, s, NodeKind::AddressSpace);
    ids_in_turn(r + c + p + t + s, m, NodeKind::MemoryObject);
    ids_in_turn(r + c + p + t + s + m, e, NodeKind::Endpoint);
    ids_in_turn(r + c + p + t + s + m + e, d, NodeKind::Device);
    assert forall|x: NodeId| #[trigger] g.all_live_ids().contains(x) <==> g.spec_live(x) by {
        assert((r + c).contains(x) <==> r.contains(x) || c.contains(x));
        assert((r + c + p).contains(x) <==> (r + c).contains(x) || p.contains(x));
        assert((r + c + p + t).contains(x) <==> (r + c + p).contains(x) || t.contains(x));
        assert((r + c + p + t + s).contains(x) <==> (r + c + p + t).contains(x) || s.contains(x));
        assert((r + c + p + t + s + m).contains(x) <==> (r + c + p + t + s).contains(x)
            || m.contains(x));
        assert((r + c + p + t + s + m + e).contains(x) <==> (r + c + p + t + s + m).contains(x)
            || e.contains(x));
    }
}

/// The live ids of one arena, in order.
pub open spec fn slab_ids<B: NodeBody, const N: usize>(slab: Slab<B, N>) -> Seq<NodeId> {
    let s = crate::arena::live_below(slab.books().gens, N as int);
    Seq::new(
        s.len(),
        |i: int| NodeId::spec_new(B::spec_kind(), s[i], slab.slots@[s[i] as int].generation),
    )
}

/// Append the live ids of one arena.
fn push_live<B: NodeBody, const N: usize>(out: &mut Vec<NodeId>, slab: &Slab<B, N>)
    requires
        slab.wf(),
    ensures
        final(out)@ == old(out)@ + slab_ids(*slab),
{
    let idx = slab.live_indices();
    let mut i: usize = 0;
    let ghost before = out@;
    let ghost ids = slab_ids(*slab);
    proof {
        crate::arena::live_below_lists(slab.books().gens, N as int);
        assert(before + ids.subrange(0, 0) =~= before);
    }
    while i < idx.len()
        invariant
            i <= idx.len(),
            idx@ == crate::arena::live_below(slab.books().gens, N as int),
            ids == slab_ids(*slab),
            forall|j: int| 0 <= j < idx@.len() ==> #[trigger] idx@[j] < N,
            out@ == before + ids.subrange(0, i as int),
        decreases idx.len() - i,
    {
        let k: u32 = idx[i];
        out.push(NodeId::new(B::kind(), k, slab.slots[k as usize].generation));
        i = i + 1;
        assert(out@ =~= before + ids.subrange(0, i as int));
    }
    assert(ids.subrange(0, i as int) =~= ids);
}

/// Every listed edge id names a live edge.
pub proof fn listed_edge_is_live(g: Graph, i: int)
    requires
        g.wf(),
        0 <= i < g.all_live_edges().len(),
    ensures
        g@.has_edge(g.all_live_edges()[i]),
{
    let gens = g.edges.books().gens;
    assert(gens.len() == MAX_EDGES);
    crate::arena::live_below_lists(gens, MAX_EDGES as int);
    let s = crate::arena::live_below(gens, MAX_EDGES as int);
    let e = s[i];
    assert(crate::arena::is_odd(gens[e as int]));
    assert(g.edge_live(e));
    crate::id::edge_id_round_trip(g.all_live_edges()[i], e, g.edges.slots@[e as int].generation);
    assert(g@.edges.contains_key(e));
}

} // verus!

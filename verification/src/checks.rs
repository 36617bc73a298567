//! The checker's passes over edges, ownership, the scheduler and the derived
//! indices, once the lists themselves are known to be sound.

use vstd::prelude::*;

use crate::body::{AddressSpace, MemoryObject, NodeBody, Process, Thread, ThreadState};
use crate::checker::{CheckResult, Checker, Violation, OWNER_BUDGET};
use crate::edge::{Dir, Edge, EdgeAttr, HoldsAttr, MapsAttr};
use crate::graph::{Graph, Ref};
use crate::id::{compatible, EdgeId, EdgeKind, NodeId, NodeKind};
use crate::limits::{HANDLE_SLOTS, MAX_EDGES, MAX_MAPPINGS_PER_SPACE};
use crate::view::{GraphView, ListKey};

verus! {

impl Graph {
    /// A live edge is on both of its lists, between live nodes of kinds that
    /// fit.
    pub open spec fn edge_sound(self, e: u32) -> bool {
        let x = self.edges.slots@[e as int];
        &&& x.spec_edge_kind() is Some
        &&& self.spec_live(x.src)
        &&& self.spec_live(x.dst)
        &&& self.raw_list(x.src, Dir::Out, x.spec_edge_kind()->Some_0).contains(e)
        &&& self.raw_list(x.dst, Dir::In, x.spec_edge_kind()->Some_0).contains(e)
        &&& crate::id::spec_compatible(
            x.spec_edge_kind()->Some_0,
            x.src.kind()->Some_0,
            x.dst.kind()->Some_0,
        )
    }

    /// An edge is on some live node's list.
    pub open spec fn listed(self, e: u32, d: Dir) -> bool {
        exists|id: NodeId, k: EdgeKind|
            self.spec_live(id) && #[trigger] self.raw_list(id, d, k).contains(e)
    }

    /// A live edge, and every live edge before it in the arena is sound.
    pub open spec fn sound_before(self, edge: EdgeId) -> bool {
        &&& self@.has_edge(edge)
        &&& forall|e: u32|
            e < edge.idx() && #[trigger] self.edge_live(e) ==> self.edge_sound(e)
    }
}

impl Violation {
    /// What a complaint about one edge says of it: the first, in the order of
    /// the arena, that is not sound.
    pub open spec fn about_edge(self, g: Graph) -> bool {
        match self {
            Violation::EdgeMissingFromOutList { edge } => g.sound_before(edge) && !g.listed(
                edge.idx(),
                Dir::Out,
            ),
            Violation::EdgeMissingFromInList { edge } => g.sound_before(edge) && g.listed(
                edge.idx(),
                Dir::Out,
            ) && !g.listed(edge.idx(), Dir::In),
            Violation::DanglingEndpoint { edge, endpoint } => g.sound_before(edge) && g.listed(
                edge.idx(),
                Dir::Out,
            ) && g.listed(edge.idx(), Dir::In) && !g@.live(endpoint) && (
            g@.edges[edge.idx()].src == endpoint || g@.live(g@.edges[edge.idx()].src)
                && g@.edges[edge.idx()].dst == endpoint),
            Violation::Incompatible { edge, kind, src, dst } => g.sound_before(edge) && g.listed(
                edge.idx(),
                Dir::Out,
            ) && g.listed(edge.idx(), Dir::In) && g@.edges[edge.idx()].kind == kind
                && g@.edges[edge.idx()].src.kind() == Some(src) && g@.edges[edge.idx()].dst.kind()
                == Some(dst) && !crate::id::spec_compatible(kind, src, dst),
            _ => false,
        }
    }
}

/// Sound lists and sound edges are a graph.
proof fn sound_is_threaded(g: Graph)
    requires
        g.checkable(),
        g.lists_sound(),
    ensures
        g.threaded() <==> forall|e: u32| #[trigger] g.edge_live(e) ==> g.edge_sound(e),
{
    let v = g@;
    assert forall|key: ListKey| #[trigger] v.lists.contains_key(key) implies v.list_ok(key) by {
        assert(g.spec_live(key.0));
        assert(g.list_sound(key.0, key.1, key.2));
        let s = v.lists[key];
        assert forall|i: int| 0 <= i < s.len() implies v.edges.contains_key(#[trigger] s[i])
            && v.edges[s[i]].kind == key.2 && v.edges[s[i]].endpoint(key.1) == key.0 by {
            assert(g.edge_live(s[i]));
        }
    }
    assert forall|n: NodeId, d: Dir, k: EdgeKind|
        g.spec_live(n) implies #[trigger] g.edges.is_ring(g.hdr(n).spec_head(d, k), d) by {
        assert(g.list_sound(n, d, k));
    }
    assert forall|id: NodeId| #[trigger] v.nodes.contains_key(id) implies v.kind_ok(id) by {
        assert(g.spec_live(id));
    }
    if g.threaded() {
        assert forall|e: u32| #[trigger] g.edge_live(e) implies g.edge_sound(e) by {
            assert(v.edges.contains_key(e));
            assert(v.edge_ok(e));
        }
    }
    if forall|e: u32| #[trigger] g.edge_live(e) ==> g.edge_sound(e) {
        assert forall|e: u32| #[trigger] v.edges.contains_key(e) implies v.edge_ok(e) by {
            assert(g.edge_live(e));
            assert(g.edge_sound(e));
            assert(g.edges.books().gens[0] == 0);
        }
        assert forall|e: u32| #[trigger]
            g.edge_live(e) implies g.edges.slots@[e as int].spec_edge_kind() is Some by {
            assert(g.edge_sound(e));
        }
    }
}

impl Checker {
    /// Every live edge is threaded into both lists and is well typed.
    #[verifier::rlimit(30)]
    pub(crate) fn check_edges(&mut self, g: &Graph) -> (r: CheckResult)
        requires
            g.checkable(),
            g.lists_sound(),
            forall|d: Dir, e: u32|
                e < MAX_EDGES && #[trigger] old(self).seen(d, e) ==> exists|id: NodeId, k: EdgeKind|
                    g.spec_live(id) && #[trigger] g.raw_list(id, d, k).contains(e),
            forall|d: Dir, e: u32, id: NodeId, k: EdgeKind|
                e < MAX_EDGES && g.spec_live(id) && #[trigger] g.raw_list(id, d, k).contains(e)
                    ==> old(self).seen(d, e),
        ensures
            *final(self) == *old(self),
            r is Ok <==> g.threaded(),
            r matches Err(v) ==> v.about_edge(*g),
    {
        let edges = g.live_edges();
        let ghost idx = crate::arena::live_below(g.edges.books().gens, MAX_EDGES as int);
        proof {
            sound_is_threaded(*g);
            crate::arena::live_below_lists(g.edges.books().gens, MAX_EDGES as int);
            assert forall|e: u32| #[trigger] g.edge_live(e) implies idx.contains(e) by {
                assert(crate::arena::is_odd(g.edges.books().gens[e as int]));
            }
        }
        let mut i: usize = 0;
        while i < edges.len()
            invariant
                i <= edges@.len(),
                *self == *old(self),
                g.checkable(),
                g.lists_sound(),
                edges@ == g.all_live_edges(),
                idx == crate::arena::live_below(g.edges.books().gens, MAX_EDGES as int),
                idx.len() == edges@.len(),
                forall|j: int|
                    0 <= j < idx.len() ==> (#[trigger] idx[j]) < MAX_EDGES && g.edge_live(idx[j]),
                forall|d: Dir, e: u32|
                    e < MAX_EDGES && #[trigger] self.seen(d, e) ==> exists|
                        id: NodeId,
                        k: EdgeKind,
                    |
                        g.spec_live(id) && #[trigger] g.raw_list(id, d, k).contains(e),
                forall|d: Dir, e: u32, id: NodeId, k: EdgeKind|
                    e < MAX_EDGES && g.spec_live(id) && #[trigger] g.raw_list(id, d, k).contains(e)
                        ==> self.seen(d, e),
                forall|a: int, b: int| 0 <= a < b < idx.len() ==> idx[a] < idx[b],
                forall|e: u32| #[trigger] g.edge_live(e) ==> idx.contains(e),
                forall|j: int| 0 <= j < i ==> g.edge_sound(#[trigger] idx[j]),
                g.threaded() <==> forall|e: u32| #[trigger] g.edge_live(e) ==> g.edge_sound(e),
            decreases edges@.len() - i,
        {
            let eid = edges[i];
            let ghost ei = idx[i as int];
            proof {
                assert(g.edge_live(idx[i as int]));
                crate::id::edge_id_round_trip(
                    eid,
                    ei,
                    g.edges.slots@[ei as int].generation,
                );
                assert(eid.idx() == ei);
                assert(g@.has_edge(eid));
                assert(g.sound_before(eid)) by {
                    assert forall|e: u32| e < ei && #[trigger] g.edge_live(e) implies g.edge_sound(
                        e,
                    ) by {
                        let j = idx.index_of(e);
                        assert(idx[j] == e);
                        assert(j < i);
                    }
                }
            }
            let k: u32 = eid.idx();
            let e: Edge = *g.edges.at(k);
            if !self.was_seen(Dir::Out, k) {
                proof {
                    assert(!g.edge_sound(ei)) by {
                        if g.edge_sound(ei) {
                            assert(self.seen(Dir::Out, ei));
                        }
                    }
                }
                return Err(Violation::EdgeMissingFromOutList { edge: eid });
            }
            if !self.was_seen(Dir::In, k) {
                proof {
                    assert(g.listed(ei, Dir::Out));
                    assert(!g.edge_sound(ei)) by {
                        if g.edge_sound(ei) {
                            assert(self.seen(Dir::In, ei));
                        }
                    }
                }
                return Err(Violation::EdgeMissingFromInList { edge: eid });
            }
            proof {
                assert(g.listed(ei, Dir::Out) && g.listed(ei, Dir::In));
                seen_where(*g, ei, Dir::Out);
                seen_where(*g, ei, Dir::In);
            }
            if !g.is_live(e.src) {
                return Err(Violation::DanglingEndpoint { edge: eid, endpoint: e.src });
            }
            if !g.is_live(e.dst) {
                return Err(Violation::DanglingEndpoint { edge: eid, endpoint: e.dst });
            }
            let kind = match e.edge_kind() {
                Some(k) => k,
                None => EdgeKind::Owns,
            };
            let sk = match e.src.kind() {
                Some(k) => k,
                None => NodeKind::Root,
            };
            let dk = match e.dst.kind() {
                Some(k) => k,
                None => NodeKind::Root,
            };
            if !compatible(kind, sk, dk) {
                return Err(Violation::Incompatible { edge: eid, kind, src: sk, dst: dk });
            }
            assert(g.edge_sound(idx[i as int]));
            i = i + 1;
        }
        proof {
            assert forall|e: u32| #[trigger] g.edge_live(e) implies g.edge_sound(e) by {
                assert(idx.contains(e));
                let j = idx.index_of(e);
                assert(g.edge_sound(idx[j]));
            }
        }
        Ok(())
    }
}

/// An edge found on a sound list is on the list of its own endpoint and kind.
proof fn seen_where(g: Graph, e: u32, d: Dir)
    requires
        g.lists_sound(),
        g.edge_live(e),
        exists|id: NodeId, k: EdgeKind|
            g.spec_live(id) && #[trigger] g.raw_list(id, d, k).contains(e),
    ensures
        g.edges.slots@[e as int].spec_edge_kind() is Some,
        g.spec_live(g.edges.slots@[e as int].endpoint(d)),
        g.raw_list(
            g.edges.slots@[e as int].endpoint(d),
            d,
            g.edges.slots@[e as int].spec_edge_kind()->Some_0,
        ).contains(e),
{
    let (id, k) = choose|id: NodeId, k: EdgeKind|
        g.spec_live(id) && #[trigger] g.raw_list(id, d, k).contains(e);
    assert(g.list_sound(id, d, k));
    let s = g.raw_list(id, d, k);
    let i = s.index_of(e);
    assert(s[i] == e);
}

impl GraphView {
    /// The slots below `n` of a handle table are empty or hold the process's
    /// own capabilities, each under its slot.
    pub open spec fn slots_fit(self, p: NodeId, n: int) -> bool {
        let h = self.process(p).handles@;
        &&& 1 <= n
        &&& forall|i: int|
            1 <= i < n && h[i] != 0 ==> self.edges.contains_key(#[trigger] h[i])
                && self.edges[h[i]].kind == EdgeKind::Holds && self.edges[h[i]].src == p
                && self.holds(h[i]).slot == i
    }

    /// The first two of a space's mappings, in the order of its list, that
    /// overlap.
    pub open spec fn overlap_at(self, s: NodeId, a: u32, b: u32) -> bool {
        let out = self.list(s, Dir::Out, EdgeKind::Maps);
        exists|i: int, j: int|
            0 <= i < j < out.len() && #[trigger] out[i] == a && #[trigger] out[j] == b && self.maps(
                a,
            ).spec_overlaps(self.maps(b)) && forall|x: int, y: int|
                0 <= x < y < out.len() && (x < i || x == i && y < j) ==> !self.maps(
                    #[trigger] out[x],
                ).spec_overlaps(self.maps(#[trigger] out[y]))
    }

    /// A capability stands in the slot that it names.
    pub open spec fn in_table(self, p: NodeId, e: u32) -> bool {
        1 <= self.holds(e).slot < HANDLE_SLOTS && self.process(p).handles@[self.holds(
            e,
        ).slot as int] == e
    }

    /// The first `n` entries of a range index are the space's own mappings,
    /// each at or after the end of the one before.
    pub open spec fn ranges_fit(self, s: NodeId, n: int) -> bool {
        forall|i: int| 0 <= i < n ==> #[trigger] self.range_fits(s, i)
    }

    pub open spec fn range_fits(self, s: NodeId, i: int) -> bool {
        let r = self.space(s).ranges@;
        self.range_own(s, i) && (i > 0 ==> self.maps(r[i - 1]).end_at() <= self.maps(r[i]).vaddr)
    }

    /// An entry of a range index is one of the space's own mappings.
    pub open spec fn range_own(self, s: NodeId, i: int) -> bool {
        let r = self.space(s).ranges@;
        self.edges.contains_key(r[i]) && self.edges[r[i]].kind == EdgeKind::Maps
            && self.edges[r[i]].src == s
    }
}

impl Violation {
    /// What a complaint about one node's place in the tree says.
    pub open spec fn about_owner(self, g: Graph, node: NodeId) -> bool {
        let v = g@;
        let ow = v.list(node, Dir::In, EdgeKind::Owns);
        let plain = !v.dying(node) && node != v.root_id;
        match self {
            Violation::MultipleOwners { node: n } => n == node && (ow.len() > 1 || !v.dying(node)
                && node == v.root_id && ow.len() == 1),
            Violation::DyingStillOwned { node: n } => n == node && v.dying(node) && ow.len() == 1,
            Violation::NoOwner { node: n } => n == node && plain && ow.len() == 0,
            Violation::OwnerCacheStale { node: n, cached, actual } => n == node && plain && ow.len()
                == 1 && cached == v.nodes[node].owner && actual == v.edges[ow[0]].src && cached
                != actual,
            Violation::OwnershipCycle { node: n } => n == node && plain && ow.len() == 1
                && v.nodes[node].owner == v.edges[ow[0]].src && !v.climbs(
                v.edges[ow[0]].src,
                OWNER_BUDGET as nat,
            ),
            _ => false,
        }
    }

    /// What a complaint about one thread's scheduling says.
    pub open spec fn about_sched(self, g: Graph, t: NodeId) -> bool {
        let v = g@;
        let is_ready = v.list(t, Dir::In, EdgeKind::Ready).len() > 0;
        let is_waiting = v.list(t, Dir::Out, EdgeKind::Waiting).len() > 0;
        match self {
            Violation::DyingStillScheduled { node } => node == t && v.dying(t) && (is_ready
                || is_waiting),
            Violation::ThreadStateMismatch { thread, state, ready, waiting } => thread == t && state
                == v.thread(t).state && ready == is_ready && waiting == is_waiting && !(v.dying(t) && (
            is_ready || is_waiting)) && !v.sched_ok(t),
            _ => false,
        }
    }

    /// What a complaint about one process's handle table says: of the first
    /// slot that is not right, or else of the first capability that no slot
    /// holds.
    pub open spec fn about_handles(self, g: Graph, p: NodeId) -> bool {
        let v = g@;
        let h = v.process(p).handles@;
        let out = v.list(p, Dir::Out, EdgeKind::Holds);
        match self {
            Violation::HandleSlotDead { process, slot } => process == p && v.slots_fit(p, slot as int)
                && slot < HANDLE_SLOTS && h[slot as int] != 0 && !(v.edges.contains_key(
                h[slot as int],
            ) && v.edges[h[slot as int]].kind == EdgeKind::Holds),
            Violation::HandleSlotMismatch { process, slot } => process == p && v.slots_fit(
                p,
                slot as int,
            ) && slot < HANDLE_SLOTS && h[slot as int] != 0 && v.edges.contains_key(h[slot as int])
                && v.edges[h[slot as int]].kind == EdgeKind::Holds && (v.edges[h[slot as int]].src
                != p || v.holds(h[slot as int]).slot != slot),
            Violation::HoldsEdgeNotInTable { edge } => v.has_edge(edge) && v.slots_fit(
                p,
                HANDLE_SLOTS as int,
            ) && exists|n: int|
                0 <= n < out.len() && #[trigger] out[n] == edge.idx() && !v.in_table(p, out[n])
                    && forall|j: int| 0 <= j < n ==> v.in_table(p, #[trigger] out[j]),
            _ => false,
        }
    }

    /// What a complaint about a single-valued relationship says: of the
    /// space, or else of the wait, or else of the queue.
    pub open spec fn about_single(self, g: Graph, t: NodeId) -> bool {
        let spaces = g@.list(t, Dir::Out, EdgeKind::InSpace).len();
        let waits = g@.list(t, Dir::Out, EdgeKind::Waiting).len();
        let queues = g@.list(t, Dir::In, EdgeKind::Ready).len();
        self matches Violation::Cardinality { node, kind, dir, count } && node == t && count > 1
            && if spaces > 1 {
            kind == EdgeKind::InSpace && dir@ == "out"@ && count == spaces
        } else if waits > 1 {
            kind == EdgeKind::Waiting && dir@ == "out"@ && count == waits
        } else {
            kind == EdgeKind::Ready && dir@ == "in"@ && count == queues
        }
    }
}

/// The passes over single nodes.
pub enum Pass {
    Ownership,
    Scheduler,
    Handles,
    Cardinality,
    RangeIndex,
    Caches,
}

impl Pass {
    /// The place of a pass in the order in which they are made.
    pub open spec fn rank(self) -> int {
        match self {
            Pass::Ownership => 0,
            Pass::Scheduler => 1,
            Pass::Handles => 2,
            Pass::Cardinality => 3,
            Pass::RangeIndex => 4,
            Pass::Caches => 5,
        }
    }
}

impl GraphView {
    /// What a pass asks of one node.
    pub open spec fn pass_ok(self, p: Pass, id: NodeId) -> bool {
        match p {
            Pass::Ownership => self.owned_within(id, OWNER_BUDGET as nat),
            Pass::Scheduler => id.kind() == Some(NodeKind::Thread) ==> self.sched_ok(id),
            Pass::Handles => id.kind() == Some(NodeKind::Process) ==> self.handles_ok(id),
            Pass::Cardinality => id.kind() == Some(NodeKind::Thread) ==> self.single_ok(id),
            Pass::RangeIndex => id.kind() == Some(NodeKind::AddressSpace) ==> self.index_ok(id),
            Pass::Caches => self.cache_ok(id),
        }
    }

    /// A pass finds nothing wrong.
    pub open spec fn pass_holds(self, p: Pass) -> bool {
        forall|id: NodeId| #[trigger] self.nodes.contains_key(id) ==> self.pass_ok(p, id)
    }
}

impl Graph {
    /// `id` is the first node, in the order of the arenas, of which a pass
    /// does not hold.
    pub open spec fn stops_at(self, p: Pass, id: NodeId) -> bool {
        exists|j: int|
            0 <= j < self.all_live_ids().len() && #[trigger] self.all_live_ids()[j] == id
                && !self@.pass_ok(p, id) && forall|i: int|
                0 <= i < j ==> self@.pass_ok(p, #[trigger] self.all_live_ids()[i])
    }
}

impl Violation {
    /// What a complaint about one node says, pass by pass.
    pub open spec fn about(self, g: Graph, p: Pass, id: NodeId) -> bool {
        match p {
            Pass::Ownership => self.about_owner(g, id),
            Pass::Scheduler => self.about_sched(g, id),
            Pass::Handles => self.about_handles(g, id),
            Pass::Cardinality => self.about_single(g, id),
            Pass::RangeIndex => self.about_index(g, id),
            Pass::Caches => self.about_cache(g, id),
        }
    }
}

/// Every list of a node can be read.
pub proof fn readable(g: Graph, id: NodeId)
    requires
        g.threaded(),
        g.spec_live(id),
    ensures
        forall|d: Dir, k: EdgeKind| #[trigger] g@.list(id, d, k).len() < MAX_EDGES,
        forall|d: Dir, k: EdgeKind, i: int|
            0 <= i < g@.list(id, d, k).len() ==> g.edge_live(#[trigger] g@.list(id, d, k)[i])
                && g@.edges.contains_key(g@.list(id, d, k)[i]) && g@.edge_ok(g@.list(id, d, k)[i])
                && g@.edges[g@.list(id, d, k)[i]].kind == k && g@.edges[g@.list(
                id,
                d,
                k,
            )[i]].endpoint(d) == id,
        g@.kind_ok(id),
{
    assert(g@.nodes.contains_key(id));
    assert forall|d: Dir, k: EdgeKind| #[trigger] g@.list(id, d, k).len() < MAX_EDGES by {
        crate::walk::members_live(g, id, d, k);
    }
    assert forall|d: Dir, k: EdgeKind, i: int| 0 <= i < g@.list(id, d, k).len() implies g.edge_live(
        #[trigger] g@.list(id, d, k)[i],
    ) && g@.edges.contains_key(g@.list(id, d, k)[i]) && g@.edge_ok(g@.list(id, d, k)[i])
        && g@.edges[g@.list(id, d, k)[i]].kind == k && g@.edges[g@.list(id, d, k)[i]].endpoint(d)
        == id by {
        crate::walk::members_live(g, id, d, k);
        assert(g@.edges.contains_key(g@.list(id, d, k)[i]));
    }
}

/// What a thread's state asks of its scheduler edges.
fn state_fits(state: ThreadState, ready: bool, waiting: bool) -> (r: bool)
    ensures
        r == match state {
            ThreadState::Ready => ready && !waiting,
            ThreadState::Blocked => waiting && !ready,
            _ => !ready && !waiting,
        },
{
    match state {
        ThreadState::Ready => ready && !waiting,
        ThreadState::Blocked => waiting && !ready,
        ThreadState::Running => !ready && !waiting,
        ThreadState::Inert => !ready && !waiting,
        ThreadState::Dying => !ready && !waiting,
    }
}

/// Follows the owners of `from` to the root; the tree has no cycles, so the
/// climb is short.
fn reaches_root(g: &Graph, from: NodeId) -> (r: bool)
    ensures
        r == g@.climbs(from, OWNER_BUDGET as nat),
{
    let ghost v = g@;
    let mut cur = from;
    let mut budget: usize = OWNER_BUDGET;
    loop
        invariant
            v == g@,
            v.climbs(from, OWNER_BUDGET as nat) <==> v.climbs(cur, budget as nat),
        decreases budget,
    {
        if !g.root_id.is_null() && cur == g.root_id {
            return true;
        }
        if budget == 0 {
            return false;
        }
        budget = budget - 1;
        match g.header(cur) {
            None => {
                return false;
            },
            Some(h) => {
                if h.owner.is_null() {
                    // A dying ancestor has already been detached; its
                    // subtree is in the reaper's hands.
                    return h.is_dying();
                }
                cur = h.owner;
            },
        }
    }
}

impl Checker {
    /// One node's place in the ownership tree.
    fn check_owner(&self, g: &Graph, node: NodeId) -> (r: CheckResult)
        requires
            g.threaded(),
            g.spec_live(node),
        ensures
            r is Ok <==> g@.owned_within(node, OWNER_BUDGET as nat),
            r matches Err(v) ==> v.about_owner(*g, node),
    {
        let ghost v = g@;
        proof {
            readable(*g, node);
        }
        let ghost ow = v.list(node, Dir::In, EdgeKind::Owns);
        let mut owners = g.in_edges(node, EdgeKind::Owns);
        let first = owners.next();
        let extra = owners.next();
        if extra.is_some() {
            return Err(Violation::MultipleOwners { node });
        }
        let (dying, cached): (bool, NodeId) = match g.header(node) {
            Some(h) => (h.is_dying(), h.owner),
            None => (false, NodeId::null()),
        };
        if dying {
            if first.is_some() {
                return Err(Violation::DyingStillOwned { node });
            }
            return Ok(());
        }
        if node == g.root_id {
            if first.is_some() {
                return Err(Violation::MultipleOwners { node });
            }
            return Ok(());
        }
        let actual = match first {
            None => return Err(Violation::NoOwner { node }),
            Some(e) => {
                proof {
                    assert(g.edge_live(ow[0]));
                    crate::id::edge_id_round_trip(e, ow[0], v.edges[ow[0]].generation);
                }
                g.edges.at(e.idx()).src
            },
        };
        if cached != actual {
            return Err(Violation::OwnerCacheStale { node, cached, actual });
        }
        if !reaches_root(g, actual) {
            return Err(Violation::OwnershipCycle { node });
        }
        Ok(())
    }

    /// Ownership is a tree rooted at the root, and dying nodes are out of it.
    pub(crate) fn check_ownership(&self, g: &Graph) -> (r: CheckResult)
        requires
            g.threaded(),
        ensures
            r is Ok <==> g@.pass_holds(Pass::Ownership),
            r matches Err(v) ==> exists|id: NodeId|
                g.stops_at(Pass::Ownership, id) && #[trigger] v.about(*g, Pass::Ownership, id),
    {
        let nodes = g.live_nodes();
        proof {
            crate::walk::every_live_node_is_listed(*g);
        }
        let mut i: usize = 0;
        while i < nodes.len()
            invariant
                i <= nodes@.len(),
                g.threaded(),
                nodes@ == g.all_live_ids(),
                forall|x: NodeId| #[trigger] g.all_live_ids().contains(x) <==> g.spec_live(x),
                forall|j: int| 0 <= j < i ==> g@.pass_ok(Pass::Ownership, #[trigger] nodes@[j]),
            decreases nodes@.len() - i,
        {
            let node = nodes[i];
            assert(nodes@.contains(nodes@[i as int]));
            match self.check_owner(g, node) {
                Err(v) => {
                    assert(g.all_live_ids()[i as int] == node);
                    assert(v.about(*g, Pass::Ownership, node));
                    assert(g@.nodes.contains_key(node));
                    return Err(v);
                },
                Ok(_) => {},
            }
            i = i + 1;
        }
        proof {
            assert forall|id: NodeId| #[trigger] g@.nodes.contains_key(id) implies g@.pass_ok(
                Pass::Ownership,
                id,
            ) by {
                assert(g.spec_live(id));
                assert(nodes@.contains(id));
                let j = nodes@.index_of(id);
                assert(nodes@[j] == id);
            }
        }
        Ok(())
    }

    /// One thread's scheduler edges agree with its state.
    fn check_thread(&self, g: &Graph, t: Ref<Thread>) -> (r: CheckResult)
        requires
            g.threaded(),
            g.spec_live(t.id()),
        ensures
            r is Ok <==> g@.sched_ok(t.id()),
            r matches Err(v) ==> v.about_sched(*g, t.id()),
    {
        let node = t.id();
        proof {
            readable(*g, node);
        }
        let ready: bool = g.in_edges(node, EdgeKind::Ready).next().is_some();
        let waiting: bool = g.out_edges(node, EdgeKind::Waiting).next().is_some();
        let dying: bool = g.is_dying(node);
        if dying && (ready || waiting) {
            return Err(Violation::DyingStillScheduled { node });
        }
        let state = match g.body(t) {
            Some(b) => b.state,
            None => ThreadState::Inert,
        };
        if !state_fits(state, ready, waiting) {
            return Err(Violation::ThreadStateMismatch { thread: node, state, ready, waiting });
        }
        Ok(())
    }

    /// Scheduler edges agree with thread state.
    pub(crate) fn check_scheduler(&self, g: &Graph) -> (r: CheckResult)
        requires
            g.threaded(),
        ensures
            r is Ok <==> g@.pass_holds(Pass::Scheduler),
            r matches Err(v) ==> exists|id: NodeId|
                g.stops_at(Pass::Scheduler, id) && #[trigger] v.about(*g, Pass::Scheduler, id),
    {
        let nodes = g.live_nodes();
        proof {
            crate::walk::every_live_node_is_listed(*g);
        }
        let mut i: usize = 0;
        while i < nodes.len()
            invariant
                i <= nodes@.len(),
                g.threaded(),
                nodes@ == g.all_live_ids(),
                forall|x: NodeId| #[trigger] g.all_live_ids().contains(x) <==> g.spec_live(x),
                forall|j: int| 0 <= j < i ==> g@.pass_ok(Pass::Scheduler, #[trigger] nodes@[j]),
            decreases nodes@.len() - i,
        {
            let node = nodes[i];
            assert(nodes@.contains(nodes@[i as int]));
            if let Some(t) = g.typed::<Thread>(node) {
                match self.check_thread(g, t) {
                    Err(v) => {
                        assert(g.all_live_ids()[i as int] == node);
                        assert(v.about(*g, Pass::Scheduler, node));
                        return Err(v);
                    },
                    Ok(_) => {},
                }
            }
            i = i + 1;
        }
        proof {
            assert forall|id: NodeId| #[trigger] g@.nodes.contains_key(id) implies g@.pass_ok(
                Pass::Scheduler,
                id,
            ) by {
                assert(g.spec_live(id));
                assert(nodes@.contains(id));
                let j = nodes@.index_of(id);
                assert(nodes@[j] == id);
            }
        }
        Ok(())
    }

    /// One process's handle table, both ways.
    fn check_table(&self, g: &Graph, p: Ref<Process>) -> (r: CheckResult)
        requires
            g.threaded(),
            g.in_bounds(),
            g.spec_live(p.id()),
        ensures
            r is Ok <==> g@.handles_ok(p.id()),
            r matches Err(v) ==> v.about_handles(*g, p.id()),
    {
        let node = p.id();
        let ghost v = g@;
        proof {
            readable(*g, node);
        }
        let body = match g.body(p) {
            Some(b) => b,
            None => return Ok(()),
        };
        let ghost h = body.handles@;
        proof {
            assert(g.cell_at(node).body is Process);
            assert(body.bounded());
        }
        let mut slot: usize = 1;
        while slot < HANDLE_SLOTS
            invariant
                1 <= slot <= HANDLE_SLOTS,
                g.threaded(),
                v == g@,
                h == body.handles@,
                *body == v.process(node),
                body.bounded(),
                node == p.id(),
                forall|i: int|
                    1 <= i < slot && h[i] != 0 ==> v.edges.contains_key(#[trigger] h[i])
                        && v.edges[h[i]].kind == EdgeKind::Holds && v.edges[h[i]].src == node
                        && v.holds(h[i]).slot == i,
            decreases HANDLE_SLOTS - slot,
        {
            let ei: u32 = body.handles[slot];
            if ei != 0 {
                let e = g.edges.at(ei);
                proof {
                    if g.edge_live(ei) {
                        assert(v.edges.contains_key(ei));
                        assert(v.edge_ok(ei));
                    }
                    assert(h[slot as int] == ei);
                }
                if !e.is_live() || e.kind != EdgeKind::Holds.code() {
                    return Err(Violation::HandleSlotDead { process: node, slot: slot as u32 });
                }
                if e.src != node || HoldsAttr::decode(e.data).slot != slot as u32 {
                    return Err(Violation::HandleSlotMismatch { process: node, slot: slot as u32 });
                }
            }
            slot = slot + 1;
        }
        // And the converse: no orphan capability edges.
        let ghost out = v.list(node, Dir::Out, EdgeKind::Holds);
        let mut it = g.out_edges(node, EdgeKind::Holds);
        let ghost mut n: int = 0;
        assert(out.subrange(0, out.len() as int) =~= out);
        loop
            invariant
                g.threaded(),
                v == g@,
                node == p.id(),
                g.spec_live(node),
                *body == v.process(node),
                h == body.handles@,
                it.in_arena(),
                it.edges == &g.edges,
                out == v.list(node, Dir::Out, EdgeKind::Holds),
                0 <= n <= out.len(),
                it.remaining() == out.subrange(n, out.len() as int),
                v.slots_fit(node, HANDLE_SLOTS as int),
                forall|j: int| 0 <= j < n ==> v.in_table(node, #[trigger] out[j]),
            ensures
                n == out.len(),
            decreases out.len() - n,
        {
            match it.next() {
                None => {
                    break;
                },
                Some(eid) => {
                    proof {
                        let rest = out.subrange(n, out.len() as int);
                        assert(rest[0] == out[n]);
                        assert(rest.drop_first() =~= out.subrange(n + 1, out.len() as int));
                        readable(*g, node);
                        assert(g.edge_live(out[n]));
                        crate::id::edge_id_round_trip(eid, out[n], v.edges[out[n]].generation);
                    }
                    let e = g.edges.at(eid.idx());
                    let slot: u32 = HoldsAttr::decode(e.data).slot;
                    if slot == 0 || slot as usize >= HANDLE_SLOTS || body.handles[slot as usize]
                        != eid.idx() {
                        proof {
                            assert(out[n] == eid.idx() && !v.in_table(node, out[n]));
                            assert(out.contains(out[n]));
                        }
                        return Err(Violation::HoldsEdgeNotInTable { edge: eid });
                    }
                    proof {
                        n = n + 1;
                    }
                },
            }
        }
        Ok(())
    }

    /// The handle table and the `Holds` edges are two views of one thing.
    pub(crate) fn check_handles(&self, g: &Graph) -> (r: CheckResult)
        requires
            g.threaded(),
            g.in_bounds(),
        ensures
            r is Ok <==> g@.pass_holds(Pass::Handles),
            r matches Err(v) ==> exists|id: NodeId|
                g.stops_at(Pass::Handles, id) && #[trigger] v.about(*g, Pass::Handles, id),
    {
        let nodes = g.live_nodes();
        proof {
            crate::walk::every_live_node_is_listed(*g);
        }
        let mut i: usize = 0;
        while i < nodes.len()
            invariant
                i <= nodes@.len(),
                g.threaded(),
                g.in_bounds(),
                nodes@ == g.all_live_ids(),
                forall|x: NodeId| #[trigger] g.all_live_ids().contains(x) <==> g.spec_live(x),
                forall|j: int| 0 <= j < i ==> g@.pass_ok(Pass::Handles, #[trigger] nodes@[j]),
            decreases nodes@.len() - i,
        {
            let node = nodes[i];
            assert(nodes@.contains(nodes@[i as int]));
            if let Some(p) = g.typed::<Process>(node) {
                match self.check_table(g, p) {
                    Err(v) => {
                        assert(g.all_live_ids()[i as int] == node);
                        assert(v.about(*g, Pass::Handles, node));
                        return Err(v);
                    },
                    Ok(_) => {},
                }
            }
            i = i + 1;
        }
        proof {
            assert forall|id: NodeId| #[trigger] g@.nodes.contains_key(id) implies g@.pass_ok(
                Pass::Handles,
                id,
            ) by {
                assert(g.spec_live(id));
                assert(nodes@.contains(id));
                let j = nodes@.index_of(id);
                assert(nodes@[j] == id);
            }
        }
        Ok(())
    }

    /// Single-valued relationships really are single-valued.
    pub(crate) fn check_cardinality(&self, g: &Graph) -> (r: CheckResult)
        requires
            g.threaded(),
        ensures
            r is Ok <==> g@.pass_holds(Pass::Cardinality),
            r matches Err(v) ==> exists|id: NodeId|
                g.stops_at(Pass::Cardinality, id) && #[trigger] v.about(*g, Pass::Cardinality, id),
    {
        let nodes = g.live_nodes();
        proof {
            crate::walk::every_live_node_is_listed(*g);
        }
        let mut i: usize = 0;
        while i < nodes.len()
            invariant
                i <= nodes@.len(),
                g.threaded(),
                nodes@ == g.all_live_ids(),
                forall|x: NodeId| #[trigger] g.all_live_ids().contains(x) <==> g.spec_live(x),
                forall|j: int| 0 <= j < i ==> g@.pass_ok(Pass::Cardinality, #[trigger] nodes@[j]),
            decreases nodes@.len() - i,
        {
            let node = nodes[i];
            assert(nodes@.contains(nodes@[i as int]));
            assert(g@.nodes.contains_key(node));
            if let Some(NodeKind::Thread) = node.kind() {
                let spaces: usize = g.out_edges(node, EdgeKind::InSpace).count();
                if spaces > 1 {
                    let v = Violation::Cardinality {
                        node,
                        kind: EdgeKind::InSpace,
                        dir: "out",
                        count: spaces,
                    };
                    assert(g.all_live_ids()[i as int] == node);
                    assert(v.about(*g, Pass::Cardinality, node));
                    return Err(v);
                }
                let waits: usize = g.out_edges(node, EdgeKind::Waiting).count();
                if waits > 1 {
                    let v = Violation::Cardinality {
                        node,
                        kind: EdgeKind::Waiting,
                        dir: "out",
                        count: waits,
                    };
                    assert(g.all_live_ids()[i as int] == node);
                    assert(v.about(*g, Pass::Cardinality, node));
                    return Err(v);
                }
                let queues: usize = g.in_edges(node, EdgeKind::Ready).count();
                if queues > 1 {
                    let v = Violation::Cardinality {
                        node,
                        kind: EdgeKind::Ready,
                        dir: "in",
                        count: queues,
                    };
                    assert(g.all_live_ids()[i as int] == node);
                    assert(v.about(*g, Pass::Cardinality, node));
                    return Err(v);
                }
            }
            i = i + 1;
        }
        proof {
            assert forall|id: NodeId| #[trigger] g@.nodes.contains_key(id) implies g@.pass_ok(
                Pass::Cardinality,
                id,
            ) by {
                assert(g.spec_live(id));
                assert(nodes@.contains(id));
                let j = nodes@.index_of(id);
                assert(nodes@[j] == id);
            }
        }
        Ok(())
    }
}

impl Violation {
    /// What a complaint about one space's range index says: of its count, or
    /// else of the first entry that is not right, or else of the first
    /// mapping that it leaves out.
    pub open spec fn about_index(self, g: Graph, s: NodeId) -> bool {
        let v = g@;
        let b = v.space(s);
        let out = v.list(s, Dir::Out, EdgeKind::Maps);
        let counted = b.mapping_count <= MAX_MAPPINGS_PER_SPACE && b.mapping_count == out.len();
        match self {
            Violation::RangeIndexCount { space, indexed, edges } => space == s && indexed
                == b.mapping_count && edges != indexed && edges == if indexed
                > MAX_MAPPINGS_PER_SPACE {
                0
            } else {
                out.len()
            },
            Violation::RangeIndexStale { space, at } => space == s && counted && at
                < b.mapping_count && v.ranges_fit(s, at as int) && !v.range_own(s, at as int),
            Violation::RangeIndexUnsorted { space, at } => space == s && counted && 0 < at
                < b.mapping_count && v.ranges_fit(s, at as int) && v.range_own(s, at as int)
                && v.maps(b.ranges@[at as int]).vaddr < v.maps(b.ranges@[at - 1]).end_at(),
            Violation::RangeIndexMissing { space, edge } => space == s && counted && v.has_edge(edge)
                && v.ranges_fit(s, b.mapping_count as int) && exists|n: int|
                0 <= n < out.len() && #[trigger] out[n] == edge.idx() && !b.indexed().contains(
                    out[n],
                ) && forall|j: int| 0 <= j < n ==> b.indexed().contains(#[trigger] out[j]),
            _ => false,
        }
    }

    /// What a complaint about one node's cached values says.
    pub open spec fn about_cache(self, g: Graph, id: NodeId) -> bool {
        let v = g@;
        match self {
            Violation::Cr3CacheStale { thread, cached, actual } => id.kind() == Some(
                NodeKind::Thread,
            ) && thread == id && cached == v.thread(id).cr3 && actual == v.root_table(id) && cached != actual,
            Violation::MapCountStale { node, cached, actual } => id.kind() == Some(
                NodeKind::MemoryObject,
            ) && node == id && cached == v.memobj(id).map_count && actual == v.list(id, Dir::In, EdgeKind::Maps).len() && cached != actual,
            Violation::MappingCountStale { space, cached, actual } => id.kind() == Some(
                NodeKind::AddressSpace,
            ) && space == id && cached == v.space(id).mapping_count && actual == v.list(id, Dir::Out, EdgeKind::Maps).len()
                && cached != actual,
            Violation::MappingOverlap { space, a, b } => id.kind() == Some(
                NodeKind::AddressSpace,
            ) && space == id && v.has_edge(a) && v.has_edge(
                b,
            ) && v.overlap_at(id, a.idx(), b.idx()),
            _ => false,
        }
    }
}

/// The edges of one of a node's lists, in order.
pub(crate) fn outgoing(g: &Graph, node: NodeId, kind: EdgeKind) -> (r: Vec<EdgeId>)
    requires
        g.threaded(),
        g.spec_live(node),
    ensures
        r@.len() == g@.list(node, Dir::Out, kind).len(),
        r@.len() < MAX_EDGES,
        forall|i: int|
            0 <= i < r@.len() ==> (#[trigger] r@[i]).idx() == g@.list(node, Dir::Out, kind)[i]
                && g@.has_edge(r@[i]) && g.edge_live(r@[i].idx()) && r@[i].idx() < MAX_EDGES,
{
    let ghost v = g@;
    let ghost out = v.list(node, Dir::Out, kind);
    proof {
        readable(*g, node);
        assert(out.len() < MAX_EDGES);
    }
    let mut it = g.out_edges(node, kind);
    let mut r: Vec<EdgeId> = Vec::new();
    assert(out.subrange(0, out.len() as int) =~= out);
    loop
        invariant
            g.threaded(),
            v == g@,
            g.spec_live(node),
            it.in_arena(),
            it.edges == &g.edges,
            out == v.list(node, Dir::Out, kind),
            out.len() < MAX_EDGES,
            r@.len() <= out.len(),
            it.remaining() == out.subrange(r@.len() as int, out.len() as int),
            forall|i: int|
                0 <= i < r@.len() ==> (#[trigger] r@[i]).idx() == out[i] && v.has_edge(r@[i])
                    && g.edge_live(r@[i].idx()) && r@[i].idx() < MAX_EDGES,
        ensures
            r@.len() == out.len(),
        decreases out.len() - r@.len(),
    {
        match it.next() {
            None => {
                break;
            },
            Some(eid) => {
                let ghost n = r@.len() as int;
                proof {
                    let rest = out.subrange(n, out.len() as int);
                    assert(rest[0] == out[n]);
                    assert(rest.drop_first() =~= out.subrange(n + 1, out.len() as int));
                    readable(*g, node);
                    assert(g.edge_live(out[n]));
                    crate::id::edge_id_round_trip(eid, out[n], v.edges[out[n]].generation);
                }
                r.push(eid);
            },
        }
    }
    r
}

/// Does the index hold the edge?
fn index_holds(body: &AddressSpace, e: u32) -> (r: bool)
    requires
        body.mapping_count <= MAX_MAPPINGS_PER_SPACE,
    ensures
        r == body.indexed().contains(e),
{
    let count: usize = body.mapping_count as usize;
    let mut i: usize = 0;
    while i < count
        invariant
            i <= count <= MAX_MAPPINGS_PER_SPACE,
            count == body.mapping_count,
            forall|j: int| 0 <= j < i ==> body.indexed()[j] != e,
        decreases count - i,
    {
        if body.ranges[i] == e {
            assert(body.indexed()[i as int] == e);
            return true;
        }
        i = i + 1;
    }
    false
}

impl Checker {
    /// One space's range index is exactly its `Maps` edges, in address order.
    #[verifier::rlimit(40)]
    fn check_index(&self, g: &Graph, s: Ref<AddressSpace>) -> (r: CheckResult)
        requires
            g.threaded(),
            g.in_bounds(),
            g.spec_live(s.id()),
        ensures
            r is Ok <==> g@.index_ok(s.id()),
            r matches Err(v) ==> v.about_index(*g, s.id()),
    {
        let node = s.id();
        let ghost v = g@;
        proof {
            readable(*g, node);
        }
        let body = match g.body(s) {
            Some(b) => b,
            None => return Ok(()),
        };
        let ghost ranges = body.ranges@;
        proof {
            assert(g.cell_at(node).body is AddressSpace);
            assert(*body == v.space(node));
        }
        let count: usize = body.mapping_count as usize;
        if count > MAX_MAPPINGS_PER_SPACE {
            return Err(
                Violation::RangeIndexCount { space: node, indexed: body.mapping_count, edges: 0 },
            );
        }
        let edges = outgoing(g, node, EdgeKind::Maps);
        let ghost out = v.list(node, Dir::Out, EdgeKind::Maps);
        if edges.len() != count {
            return Err(
                Violation::RangeIndexCount {
                    space: node,
                    indexed: body.mapping_count,
                    edges: edges.len() as u32,
                },
            );
        }
        let mut previous_end: u128 = 0;
        let mut i: usize = 0;
        while i < count
            invariant
                i <= count <= MAX_MAPPINGS_PER_SPACE,
                count == body.mapping_count,
                g.threaded(),
                v == g@,
                node == s.id(),
                *body == v.space(node),
                ranges == body.ranges@,
                count == v.list(node, Dir::Out, EdgeKind::Maps).len(),
                v.ranges_fit(node, i as int),
                forall|j: int| 0 <= j < MAX_MAPPINGS_PER_SPACE ==> #[trigger] ranges[j] < MAX_EDGES,
                forall|j: int|
                    0 <= j < i ==> v.edges.contains_key(#[trigger] ranges[j])
                        && v.edges[ranges[j]].kind == EdgeKind::Maps && v.edges[ranges[j]].src
                        == node,
                forall|j: int, k: int|
                    0 <= j < k < i ==> v.maps(#[trigger] ranges[j]).end_at() <= v.maps(
                        #[trigger] ranges[k],
                    ).vaddr,
                i == 0 ==> previous_end == 0,
                i > 0 ==> previous_end == v.maps(ranges[i - 1]).end_at(),
            decreases count - i,
        {
            let ei: u32 = body.ranges[i];
            assert(ranges[i as int] == ei);
            let e = g.edges.at(ei);
            proof {
                if g.edge_live(ei) {
                    assert(v.edges.contains_key(ei));
                    assert(v.edge_ok(ei));
                }
            }
            if !e.is_live() || e.kind != EdgeKind::Maps.code() || e.src != node {
                return Err(Violation::RangeIndexStale { space: node, at: i });
            }
            let attr = MapsAttr::decode(e.data);
            assert(attr == v.maps(ei));
            // Sorted and disjoint, so each range starts at or after the place
            // where the one before it ended.
            if (attr.vaddr as u128) < previous_end {
                return Err(Violation::RangeIndexUnsorted { space: node, at: i });
            }
            previous_end = attr.wide_end();
            proof {
                assert forall|j: int, k: int| 0 <= j < k < i + 1 implies v.maps(
                    #[trigger] ranges[j],
                ).end_at() <= v.maps(#[trigger] ranges[k]).vaddr by {
                    if k == i && j < i - 1 {
                        assert(v.maps(ranges[j]).end_at() <= v.maps(ranges[i - 1]).vaddr);
                    }
                }
                assert(v.range_fits(node, i as int));
            }
            i = i + 1;
        }
        // And no edge that is not indexed.
        let mut k: usize = 0;
        while k < edges.len()
            invariant
                k <= edges@.len() == out.len(),
                g.threaded(),
                v == g@,
                node == s.id(),
                *body == v.space(node),
                body.mapping_count <= MAX_MAPPINGS_PER_SPACE,
                body.mapping_count == out.len(),
                v.ranges_fit(node, body.mapping_count as int),
                out == v.list(node, Dir::Out, EdgeKind::Maps),
                forall|i: int|
                    0 <= i < edges@.len() ==> (#[trigger] edges@[i]).idx() == out[i] && v.has_edge(
                        edges@[i],
                    ),
                forall|j: int| 0 <= j < k ==> body.indexed().contains(#[trigger] out[j]),
            decreases edges@.len() - k,
        {
            let eid = edges[k];
            assert(edges@[k as int].idx() == out[k as int]);
            if !index_holds(body, eid.idx()) {
                assert(out[k as int] == eid.idx() && out.contains(out[k as int]));
                return Err(Violation::RangeIndexMissing { space: node, edge: eid });
            }
            k = k + 1;
        }
        Ok(())
    }

    /// Every range index is exactly the `Maps` edges, in address order.
    pub(crate) fn check_range_index(&self, g: &Graph) -> (r: CheckResult)
        requires
            g.threaded(),
            g.in_bounds(),
        ensures
            r is Ok <==> g@.pass_holds(Pass::RangeIndex),
            r matches Err(v) ==> exists|id: NodeId|
                g.stops_at(Pass::RangeIndex, id) && #[trigger] v.about(*g, Pass::RangeIndex, id),
    {
        let nodes = g.live_nodes();
        proof {
            crate::walk::every_live_node_is_listed(*g);
        }
        let mut i: usize = 0;
        while i < nodes.len()
            invariant
                i <= nodes@.len(),
                g.threaded(),
                g.in_bounds(),
                nodes@ == g.all_live_ids(),
                forall|x: NodeId| #[trigger] g.all_live_ids().contains(x) <==> g.spec_live(x),
                forall|j: int| 0 <= j < i ==> g@.pass_ok(Pass::RangeIndex, #[trigger] nodes@[j]),
            decreases nodes@.len() - i,
        {
            let node = nodes[i];
            assert(nodes@.contains(nodes@[i as int]));
            if let Some(s) = g.typed::<AddressSpace>(node) {
                match self.check_index(g, s) {
                    Err(v) => {
                        assert(g.all_live_ids()[i as int] == node);
                        assert(v.about(*g, Pass::RangeIndex, node));
                        return Err(v);
                    },
                    Ok(_) => {},
                }
            }
            i = i + 1;
        }
        proof {
            assert forall|id: NodeId| #[trigger] g@.nodes.contains_key(id) implies g@.pass_ok(
                Pass::RangeIndex,
                id,
            ) by {
                assert(g.spec_live(id));
                assert(nodes@.contains(id));
                let j = nodes@.index_of(id);
                assert(nodes@[j] == id);
            }
        }
        Ok(())
    }

    /// The mappings of one space are counted and do not overlap.
    fn check_mappings(&self, g: &Graph, s: Ref<AddressSpace>) -> (r: CheckResult)
        requires
            g.threaded(),
            g.spec_live(s.id()),
        ensures
            r is Ok <==> g@.disjoint_ok(s.id()),
            r matches Err(v) ==> v.about_cache(*g, s.id()),
    {
        let node = s.id();
        let ghost v = g@;
        proof {
            readable(*g, node);
        }
        let cached: u32 = match g.body(s) {
            Some(b) => b.mapping_count,
            None => return Ok(()),
        };
        let ids = outgoing(g, node, EdgeKind::Maps);
        let ghost out = v.list(node, Dir::Out, EdgeKind::Maps);
        let count: usize = ids.len();
        assert(v.lists.contains_key((node, Dir::Out, EdgeKind::Maps)));
        if cached != count as u32 {
            return Err(
                Violation::MappingCountStale { space: node, cached, actual: count as u32 },
            );
        }
        let mut i: usize = 0;
        while i < count
            invariant
                i <= count == ids@.len() == out.len(),
                g.threaded(),
                v == g@,
                node == s.id(),
                node.kind() == Some(NodeKind::AddressSpace),
                out == v.list(node, Dir::Out, EdgeKind::Maps),
                out.no_duplicates(),
                forall|i: int|
                    0 <= i < ids@.len() ==> (#[trigger] ids@[i]).idx() == out[i] && v.has_edge(
                        ids@[i],
                    ) && g.edge_live(ids@[i].idx()) && ids@[i].idx() < MAX_EDGES,
                forall|x: int, y: int|
                    0 <= x < i && x < y < out.len() ==> !v.maps(#[trigger] out[x]).spec_overlaps(
                        v.maps(#[trigger] out[y]),
                    ),
            decreases count - i,
        {
            let ghost m = i as int;
            assert(ids@[m].idx() == out[m]);
            let a = MapsAttr::decode(g.edges.at(ids[i].idx()).data);
            assert(a == v.maps(out[m]));
            let mut j: usize = i + 1;
            while j < count
                invariant
                    m == i,
                    i < j <= count == ids@.len() == out.len(),
                    g.threaded(),
                    v == g@,
                    node == s.id(),
                    node.kind() == Some(NodeKind::AddressSpace),
                    a == v.maps(out[m]),
                    ids@[m].idx() == out[m],
                    out == v.list(node, Dir::Out, EdgeKind::Maps),
                    out.no_duplicates(),
                    forall|i: int|
                        0 <= i < ids@.len() ==> (#[trigger] ids@[i]).idx() == out[i] && v.has_edge(
                            ids@[i],
                        ) && g.edge_live(ids@[i].idx()) && ids@[i].idx() < MAX_EDGES,
                    forall|x: int, y: int|
                        0 <= x < i && x < y < out.len() ==> !v.maps(
                            #[trigger] out[x],
                        ).spec_overlaps(v.maps(#[trigger] out[y])),
                    forall|y: int|
                        m < y < j ==> !v.maps(out[m]).spec_overlaps(v.maps(#[trigger] out[y])),
                decreases count - j,
            {
                assert(ids@[j as int].idx() == out[j as int]);
                let b = MapsAttr::decode(g.edges.at(ids[j].idx()).data);
                assert(b == v.maps(out[j as int]));
                if (a.vaddr as u128) < b.wide_end() && (b.vaddr as u128) < a.wide_end() {
                    assert(v.overlap_at(node, out[m], out[j as int]));
                    return Err(Violation::MappingOverlap { space: node, a: ids[i], b: ids[j] });
                }
                j = j + 1;
            }
            i = i + 1;
        }
        Ok(())
    }

    /// One node's cached values equal what its edges say.
    fn check_cache(&self, g: &Graph, node: NodeId) -> (r: CheckResult)
        requires
            g.threaded(),
            g.spec_live(node),
        ensures
            r is Ok <==> g@.cache_ok(node),
            r matches Err(v) ==> v.about_cache(*g, node),
    {
        proof {
            readable(*g, node);
        }
        let ghost v = g@;
        if let Some(t) = g.typed::<Thread>(node) {
            let cached: u64 = match g.body(t) {
                Some(b) => b.cr3,
                None => 0,
            };
            let ghost inspace = v.list(node, Dir::Out, EdgeKind::InSpace);
            let actual: u64 = match g.out_edges(node, EdgeKind::InSpace).next() {
                Some(e) => {
                    proof {
                        assert(g.edge_live(inspace[0]));
                        crate::id::edge_id_round_trip(
                            e,
                            inspace[0],
                            v.edges[inspace[0]].generation,
                        );
                        assert(v.kind_ok(v.edges[inspace[0]].dst));
                    }
                    match g.typed::<AddressSpace>(g.edges.at(e.idx()).dst) {
                        Some(s) => match g.body(s) {
                            Some(b) => b.pml4_phys,
                            None => 0,
                        },
                        None => 0,
                    }
                },
                None => 0,
            };
            if cached != actual {
                return Err(Violation::Cr3CacheStale { thread: node, cached, actual });
            }
            return Ok(());
        }
        if let Some(m) = g.typed::<MemoryObject>(node) {
            let cached: u32 = match g.body(m) {
                Some(b) => b.map_count,
                None => 0,
            };
            let actual: u32 = g.in_edges(node, EdgeKind::Maps).count() as u32;
            if cached != actual {
                return Err(Violation::MapCountStale { node, cached, actual });
            }
            return Ok(());
        }
        if let Some(s) = g.typed::<AddressSpace>(node) {
            return self.check_mappings(g, s);
        }
        Ok(())
    }

    /// Mappings do not overlap, and every cache equals its edge.
    pub(crate) fn check_caches(&self, g: &Graph) -> (r: CheckResult)
        requires
            g.threaded(),
        ensures
            r is Ok <==> g@.pass_holds(Pass::Caches),
            r matches Err(v) ==> exists|id: NodeId|
                g.stops_at(Pass::Caches, id) && #[trigger] v.about(*g, Pass::Caches, id),
    {
        let nodes = g.live_nodes();
        proof {
            crate::walk::every_live_node_is_listed(*g);
        }
        let mut i: usize = 0;
        while i < nodes.len()
            invariant
                i <= nodes@.len(),
                g.threaded(),
                nodes@ == g.all_live_ids(),
                forall|x: NodeId| #[trigger] g.all_live_ids().contains(x) <==> g.spec_live(x),
                forall|j: int| 0 <= j < i ==> g@.pass_ok(Pass::Caches, #[trigger] nodes@[j]),
            decreases nodes@.len() - i,
        {
            let node = nodes[i];
            assert(nodes@.contains(nodes@[i as int]));
            match self.check_cache(g, node) {
                Err(v) => {
                    assert(g.all_live_ids()[i as int] == node);
                    assert(v.about(*g, Pass::Caches, node));
                    assert(g@.nodes.contains_key(node));
                    return Err(v);
                },
                Ok(_) => {},
            }
            i = i + 1;
        }
        proof {
            assert forall|id: NodeId| #[trigger] g@.nodes.contains_key(id) implies g@.pass_ok(
                Pass::Caches,
                id,
            ) by {
                assert(g.spec_live(id));
                assert(nodes@.contains(id));
                let j = nodes@.index_of(id);
                assert(nodes@[j] == id);
            }
        }
        Ok(())
    }
}

impl GraphView {
    /// What the checker confirms of a graph whose edges and lists agree.
    pub open spec fn passes(self) -> bool {
        &&& forall|id: NodeId| #[trigger]
            self.nodes.contains_key(id) ==> self.owned_within(id, OWNER_BUDGET as nat)
        &&& self.all_bodies()
    }
}

impl Violation {
    /// The complaint made about a graph: the first that a pass runs into.
    pub open spec fn is_first_of(self, g: Graph) -> bool {
        if !g.lists_sound() {
            self.about_some_list(g)
        } else if !g.threaded() {
            self.about_edge(g)
        } else {
            exists|p: Pass, id: NodeId|
                g.stops_at(p, id) && #[trigger] self.about(g, p, id) && forall|q: Pass|
                    q.rank() < p.rank() ==> #[trigger] g@.pass_holds(q)
        }
    }
}

/// A graph that passes is well-formed, and its tables stay inside themselves.
proof fn passing_is_wf(g: Graph)
    requires
        g.threaded(),
        g.checkable(),
        g@.passes(),
    ensures
        g.wf(),
{
    assert forall|id: NodeId| #[trigger] g@.nodes.contains_key(id) implies g@.node_ok(id) by {
        assert(g@.kind_ok(id));
        assert(g@.body_ok(id));
        assert(g.spec_live(id));
        assert(g.cell_at(id).body == g@.nodes[id].body);
    }
}

/// Lists that are two views of the edges are sound one by one.
proof fn threaded_lists_sound(g: Graph)
    requires
        g.threaded(),
    ensures
        g.lists_sound(),
{
    assert forall|id: NodeId, d: Dir, k: EdgeKind| g.spec_live(id) implies #[trigger] g.list_sound(
        id,
        d,
        k,
    ) by {
        let key: ListKey = (id, d, k);
        assert(g@.lists.contains_key(key));
        assert(g@.list_ok(key));
        let s = g.raw_list(id, d, k);
        assert(s == g@.lists[key]);
        assert forall|i: int| 0 <= i < s.len() implies g.edge_live(#[trigger] s[i])
            && g.edges.slots@[s[i] as int].kind == k.spec_code()
            && g.edges.slots@[s[i] as int].endpoint(d) == id by {
            assert(g@.edges.contains_key(s[i]));
            assert(g.edge_live(s[i]));
        }
    }
}

/// The passes over single nodes, taken together.
proof fn passes_together(v: GraphView)
    requires
        v.threaded(),
    ensures
        v.passes() <==> forall|p: Pass| #[trigger] v.pass_holds(p),
{
    if v.passes() {
        assert forall|p: Pass| #[trigger] v.pass_holds(p) by {
            assert forall|id: NodeId| #[trigger] v.nodes.contains_key(id) implies v.pass_ok(
                p,
                id,
            ) by {
                assert(v.kind_ok(id));
                assert(v.body_ok(id));
                if v.nodes[id].body is AddressSpace {
                    assert(v.lists.contains_key((id, Dir::Out, EdgeKind::Maps)));
                    crate::maps::indexed_mappings_are_disjoint(v, id);
                }
            }
        }
    }
    if forall|p: Pass| #[trigger] v.pass_holds(p) {
        assert forall|id: NodeId| #[trigger] v.nodes.contains_key(id) implies v.owned_within(
            id,
            OWNER_BUDGET as nat,
        ) && v.body_ok(id) by {
            assert(v.kind_ok(id));
            assert(v.pass_holds(Pass::Ownership) && v.pass_holds(Pass::Scheduler) && v.pass_holds(
                Pass::Handles,
            ) && v.pass_holds(Pass::Cardinality) && v.pass_holds(Pass::RangeIndex)
                && v.pass_holds(Pass::Caches));
            assert(v.pass_ok(Pass::Ownership, id) && v.pass_ok(Pass::Scheduler, id) && v.pass_ok(
                Pass::Handles,
                id,
            ) && v.pass_ok(Pass::Cardinality, id) && v.pass_ok(Pass::RangeIndex, id) && v.pass_ok(
                Pass::Caches,
                id,
            ));
        }
    }
}

impl Checker {
    /// Run every check. `Ok` means the graph is well-formed and keeps every
    /// invariant; a complaint is the first that the passes, in their order,
    /// run into.
    pub fn check(&mut self, g: &Graph) -> (r: CheckResult)
        requires
            g.checkable(),
        ensures
            r is Ok <==> g.threaded() && g@.passes(),
            r is Ok ==> g.wf(),
            r matches Err(v) ==> v.is_first_of(*g),
    {
        self.clear();
        proof {
            if g.threaded() {
                threaded_lists_sound(*g);
                passes_together(g@);
            }
        }
        match self.check_lists(g) {
            Err(v) => return Err(v),
            Ok(_) => {},
        }
        match self.check_edges(g) {
            Err(v) => return Err(v),
            Ok(_) => {},
        }
        match self.check_ownership(g) {
            Err(v) => return Err(v),
            Ok(_) => {},
        }
        match self.check_scheduler(g) {
            Err(v) => return Err(v),
            Ok(_) => {},
        }
        match self.check_handles(g) {
            Err(v) => return Err(v),
            Ok(_) => {},
        }
        match self.check_cardinality(g) {
            Err(v) => return Err(v),
            Ok(_) => {},
        }
        match self.check_range_index(g) {
            Err(v) => return Err(v),
            Ok(_) => {},
        }
        match self.check_caches(g) {
            Err(v) => return Err(v),
            Ok(_) => {},
        }
        proof {
            assert forall|p: Pass| #[trigger] g@.pass_holds(p) by {
                assert(g@.pass_holds(Pass::Ownership));
            }
            passing_is_wf(*g);
        }
        Ok(())
    }
}

} // verus!

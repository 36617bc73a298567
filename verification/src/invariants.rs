//! What every consistent graph satisfies, and how each step on the view bears
//! on it.
//!
//! Each invariant is stated of one node and its surroundings, so that a step
//! has to be looked at only where it changes something.

use vstd::prelude::*;

use crate::body::{Body, Process, Thread, ThreadState};
use crate::edge::{Dir, EdgeAttr};
use crate::id::{EdgeKind, NodeId, NodeKind};
use crate::limits::HANDLE_SLOTS;
use crate::view::{GraphView, ListKey};

verus! {

impl GraphView {
    // ------------------------------------------------------------ ownership ---

    /// Following owners from `id` comes to the root, or to a node that is
    /// going away and has been detached, in at most `n` hops.
    pub open spec fn reaches(self, id: NodeId, n: nat) -> bool
        decreases n,
    {
        ||| !self.root_id.is_null() && id == self.root_id
        ||| self.live(id) && if self.nodes[id].owner.is_null() {
            self.dying(id)
        } else {
            n > 0 && self.reaches(self.nodes[id].owner, (n - 1) as nat)
        }
    }

    pub open spec fn anchored(self, id: NodeId) -> bool {
        exists|n: nat| self.reaches(id, n)
    }

    /// Ownership is a tree rooted at the root: a node going away is out of it,
    /// and every other node but the root has one owner, cached, whose own
    /// owners lead to the root.
    pub open spec fn owned_ok(self, id: NodeId) -> bool {
        let ow = self.list(id, Dir::In, EdgeKind::Owns);
        &&& ow.len() <= 1
        &&& self.dying(id) || id == self.root_id ==> ow.len() == 0
        &&& !self.dying(id) && id != self.root_id ==> {
            &&& ow.len() == 1
            &&& self.nodes[id].owner == self.edges[ow[0]].src
            &&& self.anchored(self.nodes[id].owner)
        }
    }

    /// Following owners from `id` comes to the root, or to a detached node
    /// that is going away, within a budget.
    pub open spec fn climbs(self, id: NodeId, budget: nat) -> bool
        decreases budget,
    {
        ||| !self.root_id.is_null() && id == self.root_id
        ||| budget > 0 && self.live(id) && if self.nodes[id].owner.is_null() {
            self.dying(id)
        } else {
            self.climbs(self.nodes[id].owner, (budget - 1) as nat)
        }
    }

    /// As `owned_ok`, with a budget on how far the root may be.
    pub open spec fn owned_within(self, id: NodeId, budget: nat) -> bool {
        let ow = self.list(id, Dir::In, EdgeKind::Owns);
        &&& ow.len() <= 1
        &&& self.dying(id) || id == self.root_id ==> ow.len() == 0
        &&& !self.dying(id) && id != self.root_id ==> {
            &&& ow.len() == 1
            &&& self.nodes[id].owner == self.edges[ow[0]].src
            &&& self.climbs(self.nodes[id].owner, budget)
        }
    }

    // ------------------------------------------------------------ scheduler ---

    /// A thread's state agrees with its scheduler edges, and a thread going
    /// away has none.
    pub open spec fn sched_ok(self, t: NodeId) -> bool {
        let ready = self.list(t, Dir::In, EdgeKind::Ready).len() > 0;
        let waiting = self.list(t, Dir::Out, EdgeKind::Waiting).len() > 0;
        &&& self.dying(t) ==> !ready && !waiting
        &&& match self.thread(t).state {
            ThreadState::Ready => ready && !waiting,
            ThreadState::Blocked => waiting && !ready,
            _ => !ready && !waiting,
        }
    }

    /// Single-valued relationships really are single-valued.
    pub open spec fn single_ok(self, t: NodeId) -> bool {
        &&& self.list(t, Dir::Out, EdgeKind::InSpace).len() <= 1
        &&& self.list(t, Dir::Out, EdgeKind::Waiting).len() <= 1
        &&& self.list(t, Dir::In, EdgeKind::Ready).len() <= 1
    }

    /// The page-table root of the space a thread runs in, zero if none.
    pub open spec fn root_table(self, t: NodeId) -> u64 {
        let s = self.list(t, Dir::Out, EdgeKind::InSpace);
        if s.len() > 0 {
            self.space(self.edges[s[0]].dst).pml4_phys
        } else {
            0
        }
    }

    pub open spec fn cr3_ok(self, t: NodeId) -> bool {
        self.thread(t).cr3 == self.root_table(t)
    }

    // --------------------------------------------------------- capabilities ---

    /// The handle table and the `Holds` edges are two views of one thing.
    pub open spec fn handles_ok(self, p: NodeId) -> bool {
        let h = self.process(p).handles@;
        let out = self.list(p, Dir::Out, EdgeKind::Holds);
        &&& forall|i: int|
            1 <= i < HANDLE_SLOTS && h[i] != 0 ==> self.edges.contains_key(#[trigger] h[i])
                && self.edges[h[i]].kind == EdgeKind::Holds && self.edges[h[i]].src == p
                && self.holds(h[i]).slot == i
        &&& forall|j: int|
            0 <= j < out.len() ==> 1 <= self.holds(#[trigger] out[j]).slot < HANDLE_SLOTS
                && h[self.holds(out[j]).slot as int] == out[j]
    }

    // -------------------------------------------------------------- mappings ---

    pub open spec fn map_count_ok(self, m: NodeId) -> bool {
        self.memobj(m).map_count == self.list(m, Dir::In, EdgeKind::Maps).len()
    }

    /// Every value a node keeps in step with its edges.
    pub open spec fn cache_ok(self, id: NodeId) -> bool {
        match self.nodes[id].body {
            Body::Thread(_) => self.cr3_ok(id),
            Body::MemoryObject(_) => self.map_count_ok(id),
            Body::AddressSpace(_) => self.disjoint_ok(id),
            _ => true,
        }
    }

    // -------------------------------------------------------------- together ---

    /// Everything that has to hold of one node besides its place in the tree.
    pub open spec fn body_ok(self, id: NodeId) -> bool {
        match self.nodes[id].body {
            Body::Thread(_) => self.sched_ok(id) && self.single_ok(id) && self.cr3_ok(id),
            Body::Process(_) => self.handles_ok(id),
            Body::AddressSpace(_) => self.index_ok(id),
            Body::MemoryObject(_) => self.map_count_ok(id),
            _ => true,
        }
    }

    pub open spec fn all_owned(self) -> bool {
        forall|id: NodeId| #[trigger] self.nodes.contains_key(id) ==> self.owned_ok(id)
    }

    pub open spec fn all_bodies(self) -> bool {
        forall|id: NodeId| #[trigger] self.nodes.contains_key(id) ==> self.body_ok(id)
    }

    /// Every invariant the graph can check of itself.
    pub open spec fn consistent(self) -> bool {
        self.all_owned() && self.all_bodies()
    }

    /// Every body fits but, perhaps, the one.
    pub open spec fn bodies_but(self, x: NodeId) -> bool {
        forall|id: NodeId| #[trigger] self.nodes.contains_key(id) && id != x ==> self.body_ok(id)
    }

    /// `s` is the reaper's list: every node going away, once.
    pub open spec fn reaper_list(self, s: Seq<NodeId>) -> bool {
        &&& s.no_duplicates()
        &&& self.dying_head == (if s.len() > 0 {
            s[0]
        } else {
            NodeId(0)
        })
        &&& forall|i: int|
            0 <= i < s.len() ==> self.live(#[trigger] s[i]) && self.dying(s[i])
        &&& forall|i: int|
            0 <= i < s.len() ==> (#[trigger] self.nodes[s[i]]).next_dying == if i + 1 < s.len() {
                s[i + 1]
            } else {
                NodeId(0)
            }
        &&& forall|id: NodeId| #[trigger] self.nodes.contains_key(id) && self.dying(id) ==> s.contains(id)
    }

    /// A node with no place in the tree has no owner written down either, and
    /// the root is there as long as it is named.
    pub open spec fn roots_ok(self) -> bool {
        &&& forall|id: NodeId| #[trigger]
            self.nodes.contains_key(id) && (self.dying(id) || id == self.root_id)
                ==> self.nodes[id].owner == NodeId(0)
        &&& !self.root_id.is_null() ==> self.live(self.root_id)
        &&& self.root_id.is_null() ==> self.root_id == NodeId(0)
    }

    /// What every operation keeps: the invariants the checker looks at, and
    /// the reaper's own list.
    pub open spec fn inv(self) -> bool {
        &&& self.consistent()
        &&& self.roots_ok()
        &&& exists|s: Seq<NodeId>| self.reaper_list(s)
    }
}

// --------------------------------------------------------------- tree frame ---

/// Reaching an anchor needs only the nodes met on the way.
pub proof fn reaches_frame(v: GraphView, w: GraphView, id: NodeId, n: nat)
    requires
        v.reaches(id, n),
        !v.root_id.is_null() ==> w.root_id == v.root_id,
        forall|x: NodeId| #[trigger]
            v.nodes.contains_key(x) ==> w.nodes.contains_key(x) && w.nodes[x].owner
                == v.nodes[x].owner && (v.dying(x) ==> w.dying(x)),
    ensures
        w.reaches(id, n),
    decreases n,
{
    if !(!v.root_id.is_null() && id == v.root_id) {
        assert(v.nodes.contains_key(id));
        if !v.nodes[id].owner.is_null() {
            reaches_frame(v, w, v.nodes[id].owner, (n - 1) as nat);
        }
    }
}

/// The place of every node in the tree depends only on owners, flags, the
/// root, and the `Owns` in-lists.
pub proof fn owned_frame(v: GraphView, w: GraphView)
    requires
        v.all_owned(),
        v.wf(),
        w.root_id == v.root_id,
        w.nodes.dom() == v.nodes.dom(),
        forall|x: NodeId| #[trigger]
            v.nodes.contains_key(x) ==> w.nodes[x].owner == v.nodes[x].owner && w.dying(x)
                == v.dying(x) && w.list(x, Dir::In, EdgeKind::Owns) == v.list(
                x,
                Dir::In,
                EdgeKind::Owns,
            ),
        forall|e: u32| #[trigger]
            v.edges.contains_key(e) && v.edges[e].kind == EdgeKind::Owns ==> w.edges[e].src
                == v.edges[e].src,
    ensures
        w.all_owned(),
{
    assert forall|x: NodeId| v.nodes.contains_key(x) == w.nodes.contains_key(x) by {
        assert(v.nodes.dom().contains(x) == w.nodes.dom().contains(x));
    }
    assert forall|id: NodeId| #[trigger] w.nodes.contains_key(id) implies w.owned_ok(id) by {
        assert(v.nodes.contains_key(id));
        assert(v.owned_ok(id));
        let key: ListKey = (id, Dir::In, EdgeKind::Owns);
        assert(v.lists.contains_key(key));
        assert(v.list_ok(key));
        if !v.dying(id) && id != v.root_id {
            let ow = v.lists[key];
            assert(v.edges.contains_key(ow[0]));
            let n = choose|n: nat| v.reaches(v.nodes[id].owner, n);
            reaches_frame(v, w, v.nodes[id].owner, n);
        }
    }
}

// -------------------------------------------------------------- link frame ---

/// A new edge bears only on the endpoint whose invariant speaks of its kind.
pub open spec fn touches(kind: EdgeKind, src: NodeId, dst: NodeId, id: NodeId) -> bool {
    match kind {
        EdgeKind::Ready => id == dst,
        EdgeKind::Waiting => id == src,
        EdgeKind::InSpace => id == src,
        EdgeKind::Holds => id == src,
        EdgeKind::Maps => id == src || id == dst,
        _ => false,
    }
}

/// A body whose lists, listed edges and neighbours are as they were still fits.
pub proof fn body_frame(v: GraphView, w: GraphView, id: NodeId)
    requires
        v.wf(),
        v.live(id),
        w.live(id),
        v.body_ok(id),
        w.nodes[id].body == v.nodes[id].body,
        w.dying(id) == v.dying(id),
        id.kind() == Some(NodeKind::Thread) ==> {
            &&& w.list(id, Dir::In, EdgeKind::Ready).len() == v.list(
                id,
                Dir::In,
                EdgeKind::Ready,
            ).len()
            &&& w.list(id, Dir::Out, EdgeKind::Waiting).len() == v.list(
                id,
                Dir::Out,
                EdgeKind::Waiting,
            ).len()
            &&& w.list(id, Dir::Out, EdgeKind::InSpace) == v.list(id, Dir::Out, EdgeKind::InSpace)
            &&& w.root_table(id) == v.root_table(id)
        },
        id.kind() == Some(NodeKind::Process) ==> w.list(id, Dir::Out, EdgeKind::Holds) == v.list(
            id,
            Dir::Out,
            EdgeKind::Holds,
        ),
        id.kind() == Some(NodeKind::AddressSpace) ==> w.list(id, Dir::Out, EdgeKind::Maps)
            == v.list(id, Dir::Out, EdgeKind::Maps),
        id.kind() == Some(NodeKind::MemoryObject) ==> w.list(
            id,
            Dir::In,
            EdgeKind::Maps,
        ).len() == v.list(id, Dir::In, EdgeKind::Maps).len(),
        forall|e: u32| #[trigger]
            v.edges.contains_key(e) && v.edges[e].src == id && (v.edges[e].kind == EdgeKind::Holds
                || v.edges[e].kind == EdgeKind::Maps) ==> w.edges.contains_key(e) && w.edges[e]
                == v.edges[e],
    ensures
        w.body_ok(id),
{
    assert(v.nodes.contains_key(id));
    assert(v.node_ok(id));
    match v.nodes[id].body {
        Body::Process(p) => {
            let h = p.handles@;
            let key: ListKey = (id, Dir::Out, EdgeKind::Holds);
            let out = v.lists[key];
            assert(v.lists.contains_key(key));
            assert(v.list_ok(key));
            assert forall|i: int| 1 <= i < HANDLE_SLOTS && h[i] != 0 implies w.edges.contains_key(
                #[trigger] h[i],
            ) && w.edges[h[i]].kind == EdgeKind::Holds && w.edges[h[i]].src == id && w.holds(
                h[i],
            ).slot == i by {
                assert(v.edges.contains_key(h[i]));
            }
            assert forall|j: int| 0 <= j < out.len() implies 1 <= w.holds(#[trigger] out[j]).slot
                < HANDLE_SLOTS && h[w.holds(out[j]).slot as int] == out[j] by {
                assert(v.edges.contains_key(out[j]));
            }
            assert(w.handles_ok(id));
        },
        Body::AddressSpace(b) => {
            let key: ListKey = (id, Dir::Out, EdgeKind::Maps);
            let out = v.lists[key];
            assert(v.lists.contains_key(key));
            assert(v.list_ok(key));
            assert forall|i: int| 0 <= i < b.mapping_count implies w.edges.contains_key(
                #[trigger] b.ranges@[i],
            ) && w.edges[b.ranges@[i]] == v.edges[b.ranges@[i]] by {
                assert(v.edges.contains_key(b.ranges@[i]));
            }
            assert(w.index_ok(id));
        },
        _ => {},
    }
}

/// Linking bears on no body but those it touches.
pub proof fn link_keeps_bodies(
    v: GraphView,
    src: NodeId,
    kind: EdgeKind,
    dst: NodeId,
    data: Seq<u8>,
    e: u32,
    g: u32,
    id: NodeId,
)
    requires
        v.wf(),
        v.live(src),
        v.live(dst),
        !v.edges.contains_key(e),
        v.live(id),
        v.body_ok(id),
        !touches(kind, src, dst, id),
    ensures
        v.link(src, kind, dst, data, e, g).body_ok(id),
{
    let w = v.link(src, kind, dst, data, e, g);
    assert(v.nodes.contains_key(id));
    assert(v.node_ok(id));
    if id.kind() == Some(NodeKind::Thread) {
        let key: ListKey = (id, Dir::Out, EdgeKind::InSpace);
        let s = v.lists[key];
        assert(v.lists.contains_key(key));
        assert(v.list_ok(key));
        assert(w.lists[key] == s);
        if s.len() > 0 {
            assert(v.edges.contains_key(s[0]));
            assert(v.edge_ok(s[0]));
        }
        assert(w.root_table(id) == v.root_table(id));
    }
    body_frame(v, w, id);
}

/// Linking anything but `Owns` leaves the tree as it was.
pub proof fn link_keeps_tree(
    v: GraphView,
    src: NodeId,
    kind: EdgeKind,
    dst: NodeId,
    data: Seq<u8>,
    e: u32,
    g: u32,
)
    requires
        v.wf(),
        v.live(src),
        v.live(dst),
        !v.edges.contains_key(e),
        kind != EdgeKind::Owns,
        v.all_owned(),
    ensures
        v.link(src, kind, dst, data, e, g).all_owned(),
{
    let w = v.link(src, kind, dst, data, e, g);
    owned_frame(v, w);
}

/// The reaper's list and the root do not depend on edges.
pub proof fn nodes_keep_roots(v: GraphView, w: GraphView)
    requires
        v.roots_ok(),
        exists|s: Seq<NodeId>| v.reaper_list(s),
        w.nodes.dom() == v.nodes.dom(),
        w.root_id == v.root_id,
        w.dying_head == v.dying_head,
        forall|x: NodeId| #[trigger]
            v.nodes.contains_key(x) ==> w.nodes[x].owner == v.nodes[x].owner && w.nodes[x].flags
                == v.nodes[x].flags && w.nodes[x].next_dying == v.nodes[x].next_dying,
    ensures
        w.roots_ok(),
        exists|s: Seq<NodeId>| w.reaper_list(s),
{
    assert forall|x: NodeId| v.nodes.contains_key(x) == w.nodes.contains_key(x) by {
        assert(v.nodes.dom().contains(x) == w.nodes.dom().contains(x));
    }
    let s = choose|s: Seq<NodeId>| v.reaper_list(s);
    assert(v.reaper_list(s));
    assert forall|i: int| 0 <= i < s.len() implies w.live(#[trigger] s[i]) && w.dying(s[i]) by {
        assert(v.live(s[i]));
        assert(v.nodes.contains_key(s[i]));
    }
    assert forall|i: int| 0 <= i < s.len() implies (#[trigger] w.nodes[s[i]]).next_dying == if i
        + 1 < s.len() {
        s[i + 1]
    } else {
        NodeId(0)
    } by {
        assert(v.live(s[i]));
        assert(v.nodes.contains_key(s[i]));
        assert(v.nodes[s[i]].next_dying == w.nodes[s[i]].next_dying);
    }
    assert forall|id: NodeId| #[trigger] w.nodes.contains_key(id) && w.dying(id) implies s.contains(
        id,
    ) by {
        assert(v.nodes.contains_key(id));
    }
    assert(w.reaper_list(s));
    assert forall|id: NodeId| #[trigger]
        w.nodes.contains_key(id) && (w.dying(id) || id == w.root_id) implies w.nodes[id].owner
        == NodeId(0) by {
        assert(v.nodes.contains_key(id));
    }
}

// --------------------------------------------------------------- cut frame ---

/// Cutting an edge bears on no body but those it touches.
pub proof fn cut_keeps_bodies(v: GraphView, e: u32, id: NodeId)
    requires
        v.wf(),
        v.edges.contains_key(e),
        v.live(id),
        v.body_ok(id),
        !touches(v.edges[e].kind, v.edges[e].src, v.edges[e].dst, id),
    ensures
        v.cut(e).body_ok(id),
{
    let w = v.cut(e);
    let x = v.edges[e];
    assert(v.nodes.contains_key(id));
    assert(v.node_ok(id));
    if id.kind() == Some(NodeKind::Thread) {
        let key: ListKey = (id, Dir::Out, EdgeKind::InSpace);
        let s = v.lists[key];
        assert(v.lists.contains_key(key));
        assert(v.list_ok(key));
        assert(w.lists[key] == s);
        if s.len() > 0 {
            assert(v.edges.contains_key(s[0]));
            assert(s[0] != e);
        }
        assert(w.root_table(id) == v.root_table(id));
    }
    body_frame(v, w, id);
}

/// Cutting anything but `Owns` leaves the tree as it was.
pub proof fn cut_keeps_tree(v: GraphView, e: u32)
    requires
        v.wf(),
        v.edges.contains_key(e),
        v.edges[e].kind != EdgeKind::Owns,
        v.all_owned(),
    ensures
        v.cut(e).all_owned(),
{
    owned_frame(v, v.cut(e));
}

// -------------------------------------------------------------- body frame ---

/// A changed body bears on no other, unless it moves a page-table root.
pub proof fn with_body_keeps_bodies(v: GraphView, x: NodeId, body: Body, id: NodeId)
    requires
        v.wf(),
        v.live(x),
        v.live(id),
        id != x,
        v.body_ok(id),
        body.kind() == v.nodes[x].body.kind(),
        body.kind() == NodeKind::AddressSpace ==> body->AddressSpace_0.pml4_phys == v.space(
            x,
        ).pml4_phys,
    ensures
        v.with_body(x, body).body_ok(id),
{
    let w = v.with_body(x, body);
    assert(v.nodes.contains_key(id));
    assert(v.node_ok(id));
    if id.kind() == Some(NodeKind::Thread) {
        let key: ListKey = (id, Dir::Out, EdgeKind::InSpace);
        let s = v.lists[key];
        assert(v.lists.contains_key(key));
        assert(v.list_ok(key));
        if s.len() > 0 {
            assert(v.edges.contains_key(s[0]));
            assert(v.edge_ok(s[0]));
            assert(v.node_ok(v.edges[s[0]].dst));
            assert(v.node_ok(x));
        }
        assert(w.root_table(id) == v.root_table(id));
    }
    body_frame(v, w, id);
}

/// Bodies are no part of the tree.
pub proof fn with_body_keeps_tree(v: GraphView, x: NodeId, body: Body)
    requires
        v.wf(),
        v.live(x),
        v.all_owned(),
    ensures
        v.with_body(x, body).all_owned(),
{
    let w = v.with_body(x, body);
    assert(w.nodes.dom() =~= v.nodes.dom());
    owned_frame(v, w);
}

/// Bodies are no part of the reaper's list.
pub proof fn with_body_keeps_roots(v: GraphView, x: NodeId, body: Body)
    requires
        v.live(x),
        v.roots_ok(),
        exists|s: Seq<NodeId>| v.reaper_list(s),
    ensures
        v.with_body(x, body).roots_ok(),
        exists|s: Seq<NodeId>| v.with_body(x, body).reaper_list(s),
{
    let w = v.with_body(x, body);
    assert(w.nodes.dom() =~= v.nodes.dom());
    nodes_keep_roots(v, w);
}

} // verus!

//! What the checker confirms is what every operation keeps.

use vstd::prelude::*;

use crate::body::Body;
use crate::checker::OWNER_BUDGET;
use crate::edge::Dir;
use crate::graph::Graph;
use crate::id::{EdgeKind, NodeId, NodeKind};
use crate::limits::MAX_EDGES;
use crate::view::GraphView;

verus! {

impl GraphView {
    /// The node is a whole number of hops, and no fewer, from an anchor.
    pub open spec fn hops(self, id: NodeId, n: nat) -> bool {
        &&& self.reaches(id, n)
        &&& n > 0 ==> !self.reaches(id, (n - 1) as nat)
    }

    /// A live node of a kind that can own others.
    pub open spec fn owner_kind(self, id: NodeId) -> bool {
        &&& self.live(id)
        &&& id.kind() == Some(NodeKind::Root) || id.kind() == Some(NodeKind::Process) || id.kind()
            == Some(NodeKind::Thread)
    }
}

proof fn reaches_more(v: GraphView, id: NodeId, n: nat, m: nat)
    requires
        v.reaches(id, n),
        n <= m,
    ensures
        v.reaches(id, m),
    decreases n,
{
    if !(!v.root_id.is_null() && id == v.root_id) && !v.nodes[id].owner.is_null() {
        reaches_more(v, v.nodes[id].owner, (n - 1) as nat, (m - 1) as nat);
    }
}

proof fn fewest_hops(v: GraphView, id: NodeId, n: nat) -> (m: nat)
    requires
        v.reaches(id, n),
    ensures
        m <= n,
        v.hops(id, m),
    decreases n,
{
    if n > 0 && v.reaches(id, (n - 1) as nat) {
        fewest_hops(v, id, (n - 1) as nat)
    } else {
        n
    }
}

/// A climb is as long as the way to the anchor.
proof fn reaching_climbs(v: GraphView, id: NodeId, n: nat, budget: nat)
    requires
        v.reaches(id, n),
        n < budget,
    ensures
        v.climbs(id, budget),
    decreases n,
{
    if !(!v.root_id.is_null() && id == v.root_id) && !v.nodes[id].owner.is_null() {
        reaching_climbs(v, v.nodes[id].owner, (n - 1) as nat, (budget - 1) as nat);
    }
}

proof fn climbing_reaches(v: GraphView, id: NodeId, budget: nat)
    requires
        v.climbs(id, budget),
    ensures
        v.reaches(id, budget),
    decreases budget,
{
    if !(!v.root_id.is_null() && id == v.root_id) && !v.nodes[id].owner.is_null() {
        climbing_reaches(v, v.nodes[id].owner, (budget - 1) as nat);
    }
}

/// The owner written in a node is a node that can own others.
proof fn owners_can_own(v: GraphView, id: NodeId)
    requires
        v.wf(),
        v.all_owned(),
        v.roots_ok(),
        v.live(id),
        !v.nodes[id].owner.is_null(),
    ensures
        v.owner_kind(v.nodes[id].owner),
{
    assert(v.owned_ok(id));
    crate::id::node_id_parts(NodeId(0));
    let ow = v.list(id, Dir::In, EdgeKind::Owns);
    assert(v.lists.contains_key((id, Dir::In, EdgeKind::Owns)));
    assert(v.edges.contains_key(ow[0]));
    assert(v.edge_ok(ow[0]));
}

/// The nodes on the way up, nearest the anchor first.
proof fn way_up(v: GraphView, id: NodeId, n: nat) -> (s: Seq<NodeId>)
    requires
        v.wf(),
        v.all_owned(),
        v.roots_ok(),
        v.owner_kind(id),
        v.hops(id, n),
    ensures
        s.len() == n + 1,
        forall|i: int| 0 <= i < s.len() ==> v.owner_kind(#[trigger] s[i]) && v.hops(s[i], i as nat),
    decreases n,
{
    if n == 0 {
        seq![id]
    } else {
        let up = v.nodes[id].owner;
        assert(!v.reaches(id, (n - 1) as nat));
        owners_can_own(v, id);
        if n > 1 && v.reaches(up, (n - 2) as nat) {
            assert(v.reaches(id, (n - 1) as nat));
        }
        let below = way_up(v, up, (n - 1) as nat);
        below.push(id)
    }
}

/// There are few nodes that can own others, so the way up is short.
proof fn short_way_up(g: Graph, id: NodeId, n: nat)
    requires
        g.wf(),
        g@.all_owned(),
        g@.roots_ok(),
        g@.owner_kind(id),
        g@.hops(id, n),
    ensures
        n < 193,
{
    let v = g@;
    let s = way_up(v, id, n);
    assert forall|i: int, j: int| 0 <= i < s.len() && 0 <= j < s.len() && i != j implies s[i]
        != s[j] by {
        if s[i] == s[j] {
            let (lo, hi) = if i < j {
                (i, j)
            } else {
                (j, i)
            };
            assert(v.hops(s[hi], hi as nat));
            assert(v.hops(s[lo], lo as nat));
            reaches_more(v, s[hi], lo as nat, (hi - 1) as nat);
        }
    }
    let (r, p, t) = (
        g.live_ids(NodeKind::Root),
        g.live_ids(NodeKind::Process),
        g.live_ids(NodeKind::Thread),
    );
    crate::walk::one_kind_listed(g, NodeKind::Root);
    crate::walk::one_kind_listed(g, NodeKind::Process);
    crate::walk::one_kind_listed(g, NodeKind::Thread);
    let all = r + p + t;
    assert forall|x: NodeId| #[trigger] s.contains(x) implies all.contains(x) by {
        let i = s.index_of(x);
        assert(v.owner_kind(s[i]));
        assert(g.spec_live(x));
        if x.kind() == Some(NodeKind::Root) {
            assert(r.contains(x));
            assert(all[r.index_of(x)] == x);
        } else if x.kind() == Some(NodeKind::Process) {
            assert(p.contains(x));
            assert(all[r.len() + p.index_of(x)] == x);
        } else {
            assert(t.contains(x));
            assert(all[r.len() + p.len() + t.index_of(x)] == x);
        }
    }
    s.unique_seq_to_set();
    all.lemma_cardinality_of_set();
    assert(s.to_set().subset_of(all.to_set()));
    vstd::set_lib::lemma_len_subset(s.to_set(), all.to_set());
    crate::walk::one_kind_bound(g, NodeKind::Root);
    crate::walk::one_kind_bound(g, NodeKind::Process);
    crate::walk::one_kind_bound(g, NodeKind::Thread);
}

/// A well-formed graph can be checked: nothing in it leads out of memory.
pub proof fn wf_is_checkable(g: Graph)
    requires
        g.wf(),
    ensures
        g.checkable(),
        g.threaded(),
{
    let v = g@;
    crate::walk::wf_is_threaded(g);
    assert forall|id: NodeId, d: Dir, k: EdgeKind| g.spec_live(id) implies #[trigger] g.hdr(
        id,
    ).spec_head(d, k) < MAX_EDGES by {
        assert(g.edges.is_ring(g.hdr(id).spec_head(d, k), d));
    }
    assert forall|e: u32, d: Dir| g.edge_live(e) implies #[trigger] g.edges.slots@[e as int].spec_next(
        d,
    ) < MAX_EDGES by {
        assert(v.edges.contains_key(e));
        assert(v.edge_ok(e));
        let id = v.edges[e].endpoint(d);
        let k = v.edges[e].kind;
        assert(g.spec_live(id));
        let head = g.hdr(id).spec_head(d, k);
        assert(g.edges.is_ring(head, d));
        let s = v.list(id, d, k);
        assert(v.lists.contains_key((id, d, k)));
        assert(s == g.edges.list(head, d));
        assert(s.contains(e));
        let i = s.index_of(e);
        let next = crate::slab::nexts(g.edges.slots@, d);
        assert(next[s[i] as int] == s[crate::ring::succ(i, s.len() as int)]);
        assert(next[e as int] == g.edges.slots@[e as int].spec_next(d));
    }
    assert forall|id: NodeId| g.spec_live(id) implies match #[trigger] g.cell_at(id).body {
        Body::Process(p) => p.bounded(),
        Body::AddressSpace(s) => s.bounded(),
        _ => true,
    } by {
        assert(v.nodes.contains_key(id));
        assert(v.node_ok(id));
        assert(v.nodes[id].body == g.cell_at(id).body);
    }
}

/// The checker accepts every graph that keeps the invariants.
pub proof fn kept_invariants_pass(g: Graph)
    requires
        g.wf(),
        g@.inv(),
    ensures
        g.checkable(),
        g.threaded(),
        g@.passes(),
{
    let v = g@;
    wf_is_checkable(g);
    assert forall|id: NodeId| #[trigger] v.nodes.contains_key(id) implies v.owned_within(
        id,
        OWNER_BUDGET as nat,
    ) by {
        assert(v.owned_ok(id));
        if !v.dying(id) && id != v.root_id {
            let up = v.nodes[id].owner;
            let ow = v.list(id, Dir::In, EdgeKind::Owns);
            assert(v.lists.contains_key((id, Dir::In, EdgeKind::Owns)));
            assert(v.edges.contains_key(ow[0]));
            assert(v.edge_ok(ow[0]));
            let n = choose|n: nat| v.reaches(up, n);
            let m = fewest_hops(v, up, n);
            short_way_up(g, up, m);
            reaching_climbs(v, up, m, OWNER_BUDGET as nat);
        }
    }
}

/// Nothing the checker accepts breaks an invariant it looks at.
pub proof fn passing_is_consistent(v: GraphView)
    requires
        v.passes(),
    ensures
        v.consistent(),
{
    assert forall|id: NodeId| #[trigger] v.nodes.contains_key(id) implies v.owned_ok(id) by {
        assert(v.owned_within(id, OWNER_BUDGET as nat));
        if !v.dying(id) && id != v.root_id {
            climbing_reaches(v, v.nodes[id].owner, OWNER_BUDGET as nat);
        }
    }
}

} // verus!

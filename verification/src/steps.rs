//! What the steps on the view leave alone.

use vstd::prelude::*;

use crate::edge::{Dir, EdgeAttr};
use crate::id::{EdgeId, EdgeKind, NodeId};
use crate::limits::MAX_EDGES;
use crate::view::{GraphView, ListKey};

verus! {

impl GraphView {
    /// The id a new edge will get: there is room for one, and its slot holds
    /// no edge yet.
    pub open spec fn unused(self, e: EdgeId) -> bool {
        &&& e == self.next_edge()
        &&& !self.edge_stock.full()
        &&& !self.edges.contains_key(e.idx())
        &&& 0 < e.idx() < MAX_EDGES
        &&& e.generation() % 2 == 1
    }
}

/// Removing an edge keeps every node, its flags and its place in the reaper's
/// list, and the kind of its body.
pub proof fn unlink_keeps_nodes(v: GraphView, e: u32)
    requires
        v.wf(),
        v.edges.contains_key(e),
    ensures
        v.unlink(e).nodes.dom() == v.nodes.dom(),
        forall|n: NodeId| #[trigger] v.unlink(e).nodes.contains_key(n) == v.nodes.contains_key(n),
        forall|n: NodeId|
            v.nodes.contains_key(n) ==> (#[trigger] v.unlink(e).nodes[n]).flags == v.nodes[n].flags
                && v.unlink(e).nodes[n].next_dying == v.nodes[n].next_dying
                && v.unlink(e).nodes[n].body.kind() == v.nodes[n].body.kind(),
        v.unlink(e).dying_head == v.dying_head,
        v.unlink(e).root_id == v.root_id,
        v.unlink(e).seq == v.seq + 1,
        v.unlink(e).edges == v.edges.remove(e),
        v.detach(e).edges == v.edges,
        v.detach(e).lists == v.lists,
{
    let x = v.edges[e];
    assert(v.edge_ok(e));
    assert(v.node_ok(x.src) && v.node_ok(x.dst));
    assert(v.detach(e).nodes.dom() =~= v.nodes.dom());
}

/// The same, for the first edge of a list if there is one.
pub proof fn unlink_first_keeps_nodes(v: GraphView, id: NodeId, dir: Dir, kind: EdgeKind)
    requires
        v.wf(),
        v.live(id),
    ensures
        ({
            let w = v.unlink_first(id, dir, kind);
            &&& w.nodes.dom() == v.nodes.dom()
            &&& forall|n: NodeId| #[trigger] w.nodes.contains_key(n) == v.nodes.contains_key(n)
            &&& forall|n: NodeId|
                v.nodes.contains_key(n) ==> (#[trigger] w.nodes[n]).flags == v.nodes[n].flags
                    && w.nodes[n].next_dying == v.nodes[n].next_dying && w.nodes[n].body.kind()
                    == v.nodes[n].body.kind()
            &&& w.dying_head == v.dying_head
            &&& w.root_id == v.root_id
            &&& w.seq <= v.seq + 1
        }),
{
    let key: ListKey = (id, dir, kind);
    assert(v.lists.contains_key(key));
    assert(v.list_ok(key));
    if v.lists[key].len() > 0 {
        assert(v.edges.contains_key(v.lists[key][0]));
        unlink_keeps_nodes(v, v.lists[key][0]);
    }
}

} // verus!

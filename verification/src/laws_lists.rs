//! The adjacency lists: what undoes what, and that each edge is on one list
//! each way.

use vstd::prelude::*;

use crate::body::Rights;
use crate::edge::{Dir, EdgeAttr, HoldsAttr};
use crate::graph::Graph;
use crate::id::{EdgeId, EdgeKind, NodeId};
use crate::limits::{HANDLE_SLOTS, MAX_EDGES};
use crate::view::{GraphView, ListKey};

verus! {

// --------------------------------------------------------------------- undo ---

/// The last of a list taken out again leaves the list.
proof fn pushed_and_removed(s: Seq<u32>, e: u32)
    requires
        !s.contains(e),
    ensures
        crate::slab::without(s.push(e), e) == s,
{
    let t = s.push(e);
    assert(t[s.len() as int] == e);
    let k = t.index_of(e);
    assert(t[k] == e);
    if k < s.len() {
        assert(s[k] == e);
    }
    assert(t.remove(k) =~= s);
}

/// An edge made and removed again leaves every list, and every other edge, as
/// it was.
pub proof fn unlinking_undoes_linking(
    v: GraphView,
    src: NodeId,
    kind: EdgeKind,
    dst: NodeId,
    data: Seq<u8>,
    e: EdgeId,
)
    requires
        v.wf(),
        v.live(src),
        v.live(dst),
        v.unused(e),
    ensures
        ({
            let w = v.link(src, kind, dst, data, e.idx(), e.generation()).unlink(e.idx());
            w.lists == v.lists && w.edges == v.edges
        }),
{
    let u = v.link(src, kind, dst, data, e.idx(), e.generation());
    let w = u.unlink(e.idx());
    let (out, into): (ListKey, ListKey) = ((src, Dir::Out, kind), (dst, Dir::In, kind));
    assert(v.lists.contains_key(out) && v.lists.contains_key(into));
    assert(v.list_ok(out) && v.list_ok(into));
    absent(v, out, e.idx());
    absent(v, into, e.idx());
    pushed_and_removed(v.lists[out], e.idx());
    pushed_and_removed(v.lists[into], e.idx());
    assert(u.detach(e.idx()).lists == u.lists && u.detach(e.idx()).edges == u.edges);
    assert(w.lists =~= v.lists);
    assert(w.edges =~= v.edges);
}

/// An edge that does not exist is on no list.
proof fn absent(v: GraphView, key: ListKey, e: u32)
    requires
        v.lists.contains_key(key),
        v.list_ok(key),
        !v.edges.contains_key(e),
    ensures
        !v.lists[key].contains(e),
{
    let s = v.lists[key];
    if s.contains(e) {
        let i = s.index_of(e);
        assert(v.edges.contains_key(s[i]));
    }
}

/// A capability granted and given up again leaves every list, and every other
/// edge, as it was.
pub proof fn revoking_restores_the_lists(
    v: GraphView,
    p: NodeId,
    target: NodeId,
    rights: Rights,
    slot: u32,
    e: EdgeId,
)
    requires
        v.wf(),
        v.live(p),
        v.live(target),
        1 <= slot < HANDLE_SLOTS,
        v.unused(e),
    ensures
        ({
            let w = v.granted(p, target, rights, slot, e).unlink(e.idx());
            w.lists == v.lists && w.edges == v.edges
        }),
{
    let data = (HoldsAttr { rights, slot }).spec_bytes();
    let a = v.link(p, EdgeKind::Holds, target, data, e.idx(), e.generation());
    let b = v.granted(p, target, rights, slot, e);
    unlinking_undoes_linking(v, p, EdgeKind::Holds, target, data, e);
    assert(b.lists == a.lists && b.edges == a.edges);
    assert(b.unlink(e.idx()).lists == a.unlink(e.idx()).lists);
    assert(b.unlink(e.idx()).edges == a.unlink(e.idx()).edges);
}

// -------------------------------------------------------------------- names ---

/// Giving a name leaves every other name leading where it led: found at the
/// same place, to the same object, or not found.
pub proof fn naming_leaves_other_names(
    v: GraphView,
    t: NodeId,
    name: Seq<char>,
    other: Seq<char>,
    e: EdgeId,
    i: int,
)
    requires
        v.wf(),
        v.live(v.root_id),
        v.live(t),
        v.unused(e),
        crate::names::name_fits(name),
        other != name,
    ensures
        ({
            let w = v.link(
                v.root_id,
                EdgeKind::Named,
                t,
                crate::names::name_data(name),
                e.idx(),
                e.generation(),
            );
            let s = v.list(v.root_id, Dir::Out, EdgeKind::Named);
            let u = w.list(w.root_id, Dir::Out, EdgeKind::Named);
            &&& w.first_named(other, i) <==> v.first_named(other, i)
            &&& v.first_named(other, i) ==> w.edges[u[i]].dst == v.edges[s[i]].dst
        }),
{
    let w = v.link(
        v.root_id,
        EdgeKind::Named,
        t,
        crate::names::name_data(name),
        e.idx(),
        e.generation(),
    );
    let key: ListKey = (v.root_id, Dir::Out, EdgeKind::Named);
    assert(v.nodes.contains_key(v.root_id));
    assert(v.lists.contains_key(key));
    assert(v.list_ok(key));
    crate::names::name_reads_back(name);
    let s = v.list_or_none(v.root_id, Dir::Out, EdgeKind::Named);
    let u = w.list_or_none(w.root_id, Dir::Out, EdgeKind::Named);
    assert(u == s.push(e.idx()));
    assert(w.edge_name(e.idx()) == name);
    assert forall|j: int| 0 <= j < s.len() implies u[j] == #[trigger] s[j] && w.edge_name(s[j])
        == v.edge_name(s[j]) && w.edges[s[j]] == v.edges[s[j]] by {
        assert(v.edges.contains_key(s[j]));
    }
    if v.first_named(other, i) {
        assert forall|j: int| 0 <= j < i implies w.edge_name(#[trigger] u[j]) != other by {
            assert(u[j] == s[j]);
            assert(v.edge_name(s[j]) != other);
        }
        assert(w.edge_name(u[i]) == v.edge_name(s[i]));
    }
    if w.first_named(other, i) {
        assert(u[s.len() as int] == e.idx());
        assert(i < s.len());
        assert forall|j: int| 0 <= j < i implies v.edge_name(#[trigger] s[j]) != other by {
            assert(u[j] == s[j]);
            assert(w.edge_name(u[j]) != other);
        }
        assert(w.edge_name(s[i]) == v.edge_name(s[i]));
    }
}

// ----------------------------------------------------------------- counting ---

impl GraphView {
    /// A node's edges one way, of the first `k` kinds.
    pub open spec fn incident(self, id: NodeId, dir: Dir, k: int) -> Seq<u32>
        decreases k,
    {
        if k <= 0 {
            Seq::empty()
        } else {
            self.incident(id, dir, k - 1) + self.list(
                id,
                dir,
                EdgeKind::spec_from_u8((k - 1) as u8)->Some_0,
            )
        }
    }

    /// How long the lists of the first `n` of some nodes are together, one way.
    pub open spec fn list_lengths(self, ids: Seq<NodeId>, dir: Dir, n: int) -> nat
        decreases n,
    {
        if n <= 0 {
            0
        } else {
            self.list_lengths(ids, dir, n - 1) + self.incident(ids[n - 1], dir, 7).len()
        }
    }
}

/// A node's edges one way are those that name it there, each once.
proof fn incident_lists(v: GraphView, id: NodeId, dir: Dir, k: int)
    requires
        v.wf(),
        v.live(id),
        0 <= k <= 7,
    ensures
        v.incident(id, dir, k).no_duplicates(),
        forall|e: u32| #[trigger]
            v.incident(id, dir, k).contains(e) <==> v.edges.contains_key(e)
                && v.edges[e].endpoint(dir) == id && v.edges[e].kind.spec_code() < k,
    decreases k,
{
    if k > 0 {
        incident_lists(v, id, dir, k - 1);
        let kind = EdgeKind::spec_from_u8((k - 1) as u8)->Some_0;
        let (a, b) = (v.incident(id, dir, k - 1), v.list(id, dir, kind));
        let c = a + b;
        assert(kind.spec_code() == k - 1);
        assert(v.lists.contains_key((id, dir, kind)));
        assert(v.list_ok((id, dir, kind)));
        assert forall|e: u32| #[trigger] b.contains(e) <==> v.edges.contains_key(e)
            && v.edges[e].endpoint(dir) == id && v.edges[e].kind == kind by {
            if b.contains(e) {
                assert(v.edges.contains_key(b[b.index_of(e)]));
            }
            if v.edges.contains_key(e) {
                assert(v.edge_ok(e));
            }
        }
        assert forall|e: u32| #[trigger] c.contains(e) <==> v.edges.contains_key(e)
            && v.edges[e].endpoint(dir) == id && v.edges[e].kind.spec_code() < k by {
            joined(a, b, e);
            assert(v.edges[e].kind.spec_code() == k - 1 ==> v.edges[e].kind == kind);
        }
        assert forall|i: int, j: int| 0 <= i < c.len() && 0 <= j < c.len() && i != j implies c[i]
            != c[j] by {
            if i < a.len() && j >= a.len() {
                assert(a.contains(c[i]) && b.contains(c[j]));
            }
            if j < a.len() && i >= a.len() {
                assert(a.contains(c[j]) && b.contains(c[i]));
            }
        }
    }
}

/// Two sequences put together hold what either holds.
proof fn joined(a: Seq<u32>, b: Seq<u32>, e: u32)
    ensures
        (a + b).contains(e) <==> a.contains(e) || b.contains(e),
{
    let c = a + b;
    if a.contains(e) {
        assert(c[a.index_of(e)] == e);
    }
    if b.contains(e) {
        assert(c[a.len() + b.index_of(e)] == e);
    }
    if c.contains(e) {
        let i = c.index_of(e);
        assert(c[i] == e);
        if i < a.len() {
            assert(a[i] == e);
        } else {
            assert(b[i - a.len()] == e);
        }
    }
}

/// The edges that name one of the first `n` nodes are as many as their lists
/// are long together.
proof fn lengths_count_edges(v: GraphView, ids: Seq<NodeId>, dir: Dir, n: int) -> (s: Set<u32>)
    requires
        v.wf(),
        ids.no_duplicates(),
        0 <= n <= ids.len(),
        forall|i: int| 0 <= i < ids.len() ==> v.live(#[trigger] ids[i]),
    ensures
        s.finite(),
        s.len() == v.list_lengths(ids, dir, n),
        forall|e: u32| #[trigger]
            s.contains(e) <==> v.edges.contains_key(e) && exists|i: int|
                0 <= i < n && #[trigger] ids[i] == v.edges[e].endpoint(dir),
    decreases n,
{
    if n == 0 {
        Set::empty()
    } else {
        let a = lengths_count_edges(v, ids, dir, n - 1);
        let b = v.incident(ids[n - 1], dir, 7);
        incident_lists(v, ids[n - 1], dir, 7);
        b.unique_seq_to_set();
        let s = a.union(b.to_set());
        assert(a.disjoint(b.to_set())) by {
            assert forall|e: u32| !(a.contains(e) && #[trigger] b.to_set().contains(e)) by {
                if a.contains(e) && b.contains(e) {
                    let i = choose|i: int|
                        0 <= i < n - 1 && #[trigger] ids[i] == v.edges[e].endpoint(dir);
                    assert(ids[i] == ids[n - 1]);
                }
            }
        }
        vstd::set_lib::lemma_set_disjoint_lens(a, b.to_set());
        assert forall|e: u32| #[trigger] s.contains(e) <==> v.edges.contains_key(e) && exists|i: int|
            0 <= i < n && #[trigger] ids[i] == v.edges[e].endpoint(dir) by {
            assert(v.edges[e].kind.spec_code() < 7);
            if b.contains(e) {
                assert(ids[n - 1] == v.edges[e].endpoint(dir));
            }
            if a.contains(e) {
                let i = choose|i: int|
                    0 <= i < n - 1 && #[trigger] ids[i] == v.edges[e].endpoint(dir);
                assert(ids[i] == v.edges[e].endpoint(dir));
            }
            if v.edges.contains_key(e) && exists|i: int|
                0 <= i < n && #[trigger] ids[i] == v.edges[e].endpoint(dir) {
                let i = choose|i: int| 0 <= i < n && #[trigger] ids[i] == v.edges[e].endpoint(dir);
                if i < n - 1 {
                    assert(a.contains(e));
                } else {
                    assert(b.contains(e));
                }
            }
        }
        s
    }
}

/// The lists of all nodes together are as long as there are edges: the
/// out-lists are, and the in-lists are.
pub proof fn list_lengths_add_up(g: Graph, dir: Dir)
    requires
        g.wf(),
    ensures
        g@.list_lengths(g.all_live_ids(), dir, g.all_live_ids().len() as int)
            == crate::arena::count_live(g.edges.books().gens),
{
    let v = g@;
    let ids = g.all_live_ids();
    crate::walk::every_live_node_is_listed(g);
    assert forall|i: int| 0 <= i < ids.len() implies v.live(#[trigger] ids[i]) by {
        assert(ids.contains(ids[i]));
        assert(g.spec_live(ids[i]));
    }
    let s = lengths_count_edges(v, ids, dir, ids.len() as int);
    let gens = g.edges.books().gens;
    assert(gens.len() == MAX_EDGES);
    crate::arena::live_below_lists(gens, MAX_EDGES as int);
    let t = crate::arena::live_below(gens, MAX_EDGES as int);
    assert(gens.subrange(0, MAX_EDGES as int) =~= gens);
    assert forall|i: int, j: int| 0 <= i < t.len() && 0 <= j < t.len() && i != j implies t[i]
        != t[j] by {
        if i < j {
            assert(t[i] < t[j]);
        } else {
            assert(t[j] < t[i]);
        }
    }
    assert forall|e: u32| s.contains(e) <==> #[trigger] t.to_set().contains(e) by {
        if s.contains(e) {
            assert(g.edge_live(e));
            assert(t.contains(e));
        }
        if t.contains(e) {
            let i = t.index_of(e);
            assert(t[i] == e);
            assert(crate::arena::is_odd(gens[e as int]));
            assert(g.edge_live(e));
            assert(v.edges.contains_key(e));
            assert(v.edge_ok(e));
            let x = v.edges[e].endpoint(dir);
            assert(g.spec_live(x));
            assert(ids.contains(x));
            assert(ids[ids.index_of(x)] == x);
        }
    }
    assert(s =~= t.to_set());
    t.unique_seq_to_set();
}

} // verus!

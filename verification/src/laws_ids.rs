//! Ids are good for one object each: an id that was given up comes back as an
//! error for ever, whatever the graph goes through.
//!
//! Every operation on a graph leaves it `since` what it was, which is all that
//! is asked here of what happens in between.

use vstd::prelude::*;

use crate::arena::Books;
use crate::body::NodeBody;
use crate::graph::Graph;
use crate::id::{EdgeId, NodeId, NodeKind};
use crate::slab::Slab;
use crate::view::GraphView;

verus! {

/// What holds of one call holds of two in a row.
pub proof fn since_is_transitive(a: GraphView, b: GraphView, c: GraphView)
    requires
        b.since(a),
        c.since(b),
    ensures
        c.since(a),
{
    assert forall|k: NodeKind, i: int| #[trigger] a.node_age(k, i) <= c.node_age(k, i) by {
        assert(a.node_age(k, i) <= b.node_age(k, i));
    }
    assert forall|i: int| #[trigger] a.edge_age(i) <= c.edge_age(i) by {
        assert(a.edge_age(i) <= b.edge_age(i));
    }
}

/// An id names a live node exactly when its slot is at its generation, and
/// that is an odd one.
pub proof fn live_at_its_generation(g: Graph, id: NodeId)
    ensures
        g@.live(id) <==> id.kind() is Some && id.idx() < Graph::cap(id.kind()->Some_0)
            && id.generation() % 2 == 1 && g@.node_age(id.kind()->Some_0, id.idx() as int)
            == id.generation(),
{
    if let Some(k) = id.kind() {
        assert(g.books(k).gens.len() == Graph::cap(k));
        if id.idx() < Graph::cap(k) {
            assert(g.books(k).gens[id.idx() as int] == g.cell(k, id.idx() as int).generation);
        }
    }
}

/// An id names a live edge exactly when its slot is at its generation, and
/// that is an odd one.
pub proof fn edge_at_its_generation(g: Graph, e: EdgeId)
    ensures
        g@.has_edge(e) <==> e.idx() < crate::limits::MAX_EDGES && e.generation() % 2 == 1
            && g@.edge_age(e.idx() as int) == e.generation(),
{
    if e.idx() < crate::limits::MAX_EDGES {
        assert(g.edges.books().gens[e.idx() as int]
            == g.edges.slots@[e.idx() as int].generation);
    }
}

/// A node's id, once freed, is never live again.
pub proof fn freed_ids_never_return(a: Graph, b: Graph, c: Graph, id: NodeId)
    requires
        b@.since(a@),
        c@.since(b@),
        a@.live(id),
        !b@.live(id),
    ensures
        !c@.live(id),
{
    live_at_its_generation(a, id);
    live_at_its_generation(b, id);
    live_at_its_generation(c, id);
    let (k, i) = (id.kind()->Some_0, id.idx() as int);
    assert(a@.node_age(k, i) <= b@.node_age(k, i));
    assert(b@.node_age(k, i) <= c@.node_age(k, i));
}

/// An edge's id, once freed, is never live again.
pub proof fn freed_edges_never_return(a: Graph, b: Graph, c: Graph, e: EdgeId)
    requires
        b@.since(a@),
        c@.since(b@),
        a@.has_edge(e),
        !b@.has_edge(e),
    ensures
        !c@.has_edge(e),
{
    edge_at_its_generation(a, e);
    edge_at_its_generation(b, e);
    edge_at_its_generation(c, e);
    let i = e.idx() as int;
    assert(a@.edge_age(i) <= b@.edge_age(i));
    assert(b@.edge_age(i) <= c@.edge_age(i));
}

/// The graphs of a run, each left by one call on the one before.
pub open spec fn is_run(run: Seq<Graph>) -> bool {
    &&& forall|i: int| 0 <= i < run.len() ==> (#[trigger] run[i]).wf()
    &&& forall|i: int, j: int|
        0 <= i < run.len() && j == i + 1 && j < run.len() ==> (#[trigger] run[j])@.since(
            (#[trigger] run[i])@,
        )
}

/// What one call keeps, a run keeps.
pub proof fn runs_only_age(run: Seq<Graph>, i: int, j: int)
    requires
        is_run(run),
        0 <= i <= j < run.len(),
    ensures
        run[j]@.since(run[i]@),
    decreases j - i,
{
    if i < j {
        runs_only_age(run, i, j - 1);
        assert(run[j]@.since(run[j - 1]@));
        since_is_transitive(run[i]@, run[j - 1]@, run[j]@);
    }
}

/// Over a run of calls an id once freed is never live again.
pub proof fn freed_ids_stay_freed(run: Seq<Graph>, i: int, j: int, k: int, id: NodeId)
    requires
        is_run(run),
        0 <= i <= j <= k < run.len(),
        run[i]@.live(id),
        !run[j]@.live(id),
    ensures
        !run[k]@.live(id),
{
    runs_only_age(run, i, j);
    runs_only_age(run, j, k);
    freed_ids_never_return(run[i], run[j], run[k], id);
}

/// Over a run of calls no arena hands out a node id twice: what the first call
/// here made, a later one does not make again.
pub proof fn node_ids_are_handed_out_once(run: Seq<Graph>, i: int, j: int, kind: NodeKind)
    requires
        is_run(run),
        0 <= i < j < run.len(),
        run[i + 1]@.live(run[i].next_node(kind)),
        !run[i]@.node_stock[kind].full(),
        !run[j]@.node_stock[kind].full(),
    ensures
        run[j].next_node(kind) != run[i].next_node(kind),
{
    let id = run[i].next_node(kind);
    runs_only_age(run, i + 1, j);
    live_at_its_generation(run[i + 1], id);
    let (g, h) = (run[i], run[j]);
    assert(g.books(kind).wf() && h.books(kind).wf());
    crate::arena::stock_of_books(g.books(kind));
    crate::arena::stock_of_books(h.books(kind));
    let (s, t) = (g@.node_stock[kind], h@.node_stock[kind]);
    crate::arena::alloc_keeps_stock(s);
    crate::arena::alloc_keeps_stock(t);
    crate::id::node_id_round_trip(kind, s.next_index(), s.next_generation());
    crate::id::node_id_round_trip(kind, t.next_index(), t.next_generation());
    assert(run[i + 1]@.node_age(kind, id.idx() as int) <= h@.node_age(kind, id.idx() as int));
}

/// Over a run of calls no edge id is handed out twice.
pub proof fn edge_ids_are_handed_out_once(run: Seq<Graph>, i: int, j: int)
    requires
        is_run(run),
        0 <= i < j < run.len(),
        run[i + 1]@.has_edge(run[i].next_edge()),
        !run[i]@.edge_stock.full(),
        !run[j]@.edge_stock.full(),
    ensures
        run[j].next_edge() != run[i].next_edge(),
{
    let e = run[i].next_edge();
    runs_only_age(run, i + 1, j);
    edge_at_its_generation(run[i + 1], e);
    let (g, h) = (run[i], run[j]);
    crate::arena::stock_of_books(g.edges.books());
    crate::arena::stock_of_books(h.edges.books());
    let (s, t) = (g@.edge_stock, h@.edge_stock);
    crate::arena::alloc_keeps_stock(s);
    crate::arena::alloc_keeps_stock(t);
    crate::id::edge_id_round_trip(e, s.next_index(), s.next_generation());
    crate::id::edge_id_round_trip(e, t.next_index(), t.next_generation());
    assert(run[i + 1]@.edge_age(e.idx() as int) <= h@.edge_age(e.idx() as int));
}

// --------------------------------------------------------------------- slabs ---

/// One call on an arena: a slot was taken, one was given up, or neither.
pub open spec fn one_use(a: Books, b: Books) -> bool {
    ||| b == a
    ||| !a.full() && b == a.after_alloc()
    ||| exists|j: u32| #[trigger] a.is_live(j as int) && b == a.after_free(j)
}

/// What an arena goes through, call by call.
pub open spec fn arena_run(run: Seq<Books>) -> bool {
    &&& run.len() > 0
    &&& run[0].wf()
    &&& forall|i: int| 0 <= i < run.len() - 1 ==> one_use(#[trigger] run[i], run[i + 1])
}

/// Along a run of an arena no slot goes back to an earlier generation.
pub proof fn arenas_only_age(run: Seq<Books>, i: int, j: int)
    requires
        arena_run(run),
        0 <= i <= j < run.len(),
    ensures
        run[j].wf(),
        run[j].gens.len() == run[i].gens.len(),
        forall|x: int|
            0 <= x < run[i].gens.len() ==> #[trigger] run[i].gens[x] <= run[j].gens[x],
    decreases j,
{
    if j > 0 {
        let k = j - 1;
        if i < j {
            arenas_only_age(run, i, k);
        } else {
            arenas_only_age(run, k, k);
        }
        let a = run[k];
        let b = run[j];
        assert(one_use(run[k], run[k + 1]));
        if b != a {
            if !a.full() && b == a.after_alloc() {
                crate::arena::alloc_keeps_books(a);
            } else {
                let x = choose|x: u32| #[trigger] a.is_live(x as int) && b == a.after_free(x);
                crate::arena::free_keeps_books(a, x);
            }
        }
    }
}

/// An arena hands no index out twice with the same generation.
pub proof fn slots_are_handed_out_once(run: Seq<Books>, i: int, j: int)
    requires
        arena_run(run),
        0 <= i < j < run.len() - 1,
        !run[i].full(),
        run[i + 1] == run[i].after_alloc(),
        !run[j].full(),
        run[j + 1] == run[j].after_alloc(),
    ensures
        !(run[i].next_index() == run[j].next_index() && run[i].gens[run[i].next_index() as int] + 1
            == run[j].gens[run[j].next_index() as int] + 1),
{
    arenas_only_age(run, 0, i);
    arenas_only_age(run, i + 1, j);
    let x = run[i].next_index() as int;
    crate::arena::alloc_keeps_books(run[i]);
    assert(run[i + 1].gens[x] == run[i].gens[x] + 1);
    assert(run[i + 1].gens[x] <= run[j].gens[x]);
}

/// What a slab handed out and took back reads as nothing from then on, under
/// the generation it had.
pub proof fn freed_slots_never_read<B: NodeBody, const N: usize>(
    slabs: Seq<Slab<B, N>>,
    i: int,
    j: int,
    idx: u32,
)
    requires
        arena_run(slabs.map_values(|s: Slab<B, N>| s.books())),
        0 <= i < j < slabs.len(),
        idx < N,
        slabs[i].books().is_live(idx as int),
        slabs[i + 1].books() == slabs[i].books().after_free(idx),
    ensures
        !slabs[j].names(idx, slabs[i].slots@[idx as int].generation),
{
    let run = slabs.map_values(|s: Slab<B, N>| s.books());
    arenas_only_age(run, 0, i);
    arenas_only_age(run, i + 1, j);
    let a = slabs[i].books();
    assert(run[i] == a && run[i + 1] == slabs[i + 1].books() && run[j] == slabs[j].books());
    crate::arena::free_keeps_books(a, idx);
    assert(a.gens[idx as int] == slabs[i].slots@[idx as int].generation);
    assert(run[i + 1].gens[idx as int] == a.gens[idx as int] + 1);
    assert(run[i + 1].gens[idx as int] <= run[j].gens[idx as int]);
    assert(slabs[j].books().gens[idx as int] == slabs[j].slots@[idx as int].generation);
}

/// The same of the slab of edges.
pub proof fn freed_edge_slots_never_read(
    slabs: Seq<crate::slab::EdgeSlab>,
    i: int,
    j: int,
    idx: u32,
)
    requires
        arena_run(slabs.map_values(|s: crate::slab::EdgeSlab| s.books())),
        0 <= i < j < slabs.len(),
        idx < crate::limits::MAX_EDGES,
        slabs[i].books().is_live(idx as int),
        slabs[i + 1].books() == slabs[i].books().after_free(idx),
    ensures
        slabs[j].slots@[idx as int].generation != slabs[i].slots@[idx as int].generation,
{
    let run = slabs.map_values(|s: crate::slab::EdgeSlab| s.books());
    arenas_only_age(run, 0, i);
    arenas_only_age(run, i + 1, j);
    let a = slabs[i].books();
    assert(run[i] == a && run[i + 1] == slabs[i + 1].books() && run[j] == slabs[j].books());
    crate::arena::free_keeps_books(a, idx);
    assert(a.gens[idx as int] == slabs[i].slots@[idx as int].generation);
    assert(run[i + 1].gens[idx as int] == a.gens[idx as int] + 1);
    assert(run[i + 1].gens[idx as int] <= run[j].gens[idx as int]);
    assert(slabs[j].books().gens[idx as int] == slabs[j].slots@[idx as int].generation);
}

} // verus!

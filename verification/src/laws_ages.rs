//! No call takes a slot back to an earlier generation.

use vstd::prelude::*;

use crate::body::{MemoryObject, NodeBody, Rights, Thread};
use crate::edge::{Dir, WaitingAttr};
use crate::graph::{Graph, GraphError, Ref};
use crate::id::{EdgeId, EdgeKind, NodeId, NodeKind};
use crate::ipc::{Received, Step};
use crate::laws_history::Call;
use crate::limits::MAX_EDGES;
use crate::sched::Decision;
use crate::view::{GraphView, ListKey};
use crate::vm::VmError;

verus! {

impl GraphView {
    /// The stocks know of every edge and node there is.
    pub open spec fn stocked(self) -> bool {
        &&& self.edge_stock.wf()
        &&& self.edge_stock.gens.len() == MAX_EDGES
        &&& self.edge_stock.first == 1
        &&& forall|k: NodeKind| (#[trigger] self.node_stock[k]).wf()
        &&& forall|k: NodeKind| (#[trigger] self.node_stock[k]).gens.len() == Graph::cap(k)
        &&& forall|e: u32| #[trigger]
            self.edges.contains_key(e) ==> crate::arena::is_odd(self.edge_age(e as int))
        &&& forall|id: NodeId| #[trigger]
            self.nodes.contains_key(id) ==> id.kind() is Some && crate::arena::is_odd(
                self.node_age(id.kind()->Some_0, id.idx() as int),
            )
    }

    /// Nothing the stocks know of differs, and no node has lost its mark.
    pub open spec fn same_stock(self, o: GraphView) -> bool {
        &&& self.edge_stock == o.edge_stock
        &&& self.node_stock == o.node_stock
        &&& self.edges == o.edges
        &&& forall|id: NodeId| #[trigger] self.nodes.contains_key(id) ==> o.nodes.contains_key(id)
        &&& self.marks_kept(o)
    }

    /// Every node of `o` is here, and one that was going away still is.
    pub open spec fn marks_kept(self, o: GraphView) -> bool {
        forall|id: NodeId| #[trigger]
            o.nodes.contains_key(id) ==> self.nodes.contains_key(id) && (o.dying(id) ==> self.dying(
                id,
            ))
    }

    /// No slot is at an earlier generation, no node has gone and none has lost
    /// its mark.
    pub open spec fn follows(self, o: GraphView) -> bool {
        self.since(o) && self.marks_kept(o)
    }
}

proof fn following_on(a: GraphView, b: GraphView, c: GraphView)
    requires
        b.follows(a),
        c.follows(b),
    ensures
        c.follows(a),
{
    crate::laws_ids::since_is_transitive(a, b, c);
    assert forall|id: NodeId| #[trigger] a.nodes.contains_key(id) implies c.nodes.contains_key(id)
        && (a.dying(id) ==> c.dying(id)) by {
        assert(b.nodes.contains_key(id));
    }
}

/// The stocks of a graph know of all that is in it.
pub proof fn graphs_are_stocked(g: Graph)
    requires
        g.wf(),
    ensures
        g@.stocked(),
{
    let v = g@;
    crate::arena::stock_of_books(g.edges.books());
    assert forall|k: NodeKind| (#[trigger] v.node_stock[k]).wf() && v.node_stock[k].gens.len()
        == Graph::cap(k) by {
        assert(g.books(k).wf());
        assert(g.books(k).gens.len() == Graph::cap(k));
        crate::arena::stock_of_books(g.books(k));
    }
    assert forall|e: u32| #[trigger] v.edges.contains_key(e) implies crate::arena::is_odd(
        v.edge_age(e as int),
    ) by {
        assert(g.edge_live(e));
    }
    assert forall|id: NodeId| #[trigger] v.nodes.contains_key(id) implies id.kind() is Some
        && crate::arena::is_odd(v.node_age(id.kind()->Some_0, id.idx() as int)) by {
        crate::laws_ids::live_at_its_generation(g, id);
    }
}

proof fn same_stock_ages(v: GraphView, w: GraphView)
    requires
        v.stocked(),
        w.same_stock(v),
    ensures
        w.stocked(),
        w.follows(v),
{
    assert forall|e: u32| #[trigger] w.edges.contains_key(e) implies crate::arena::is_odd(
        w.edge_age(e as int),
    ) by {
        assert(v.edges.contains_key(e));
    }
    assert forall|id: NodeId| #[trigger] w.nodes.contains_key(id) implies id.kind() is Some
        && crate::arena::is_odd(w.node_age(id.kind()->Some_0, id.idx() as int)) by {
        assert(v.nodes.contains_key(id));
    }
}

proof fn unlinking_ages(v: GraphView, id: NodeId, dir: Dir, kind: EdgeKind)
    requires
        v.wf(),
        v.stocked(),
        v.live(id),
    ensures
        v.unlink_first(id, dir, kind).wf(),
        v.unlink_first(id, dir, kind).stocked(),
        v.unlink_first(id, dir, kind).follows(v),
        forall|n: NodeId| #[trigger] v.unlink_first(id, dir, kind).live(n) == v.live(n),
{
    let key: ListKey = (id, dir, kind);
    assert(v.lists.contains_key(key));
    assert(v.list_ok(key));
    if v.lists[key].len() > 0 {
        let e = v.lists[key][0];
        assert(v.edges.contains_key(e));
        one_unlink_ages(v, e);
    } else {
        same_stock_ages(v, v);
    }
}

proof fn one_unlink_ages(v: GraphView, e: u32)
    requires
        v.wf(),
        v.stocked(),
        v.edges.contains_key(e),
    ensures
        v.unlink(e).wf(),
        v.unlink(e).stocked(),
        v.unlink(e).follows(v),
        forall|n: NodeId| #[trigger] v.unlink(e).live(n) == v.live(n),
{
    let w = v.unlink(e);
    crate::laws::unlink_wf(v, e);
    crate::steps::unlink_keeps_nodes(v, e);
    crate::arena::free_keeps_stock(v.edge_stock, e);
    assert(v.detach(e).edge_stock == v.edge_stock && v.detach(e).node_stock == v.node_stock);
    assert(w.edge_stock == v.edge_stock.after_free(e));
    assert forall|i: int| #[trigger] v.edge_age(i) <= w.edge_age(i) by {
        assert(v.edge_stock.age(i) <= w.edge_stock.age(i));
    }
    assert forall|x: u32| #[trigger] w.edges.contains_key(x) implies crate::arena::is_odd(
        w.edge_age(x as int),
    ) by {
        assert(v.edges.contains_key(x) && x != e);
    }
    assert forall|id: NodeId| #[trigger] w.nodes.contains_key(id) implies id.kind() is Some
        && crate::arena::is_odd(w.node_age(id.kind()->Some_0, id.idx() as int)) by {
        assert(v.nodes.contains_key(id));
    }
}

/// A new edge takes the slot the stock gives next.
proof fn linking_ages(
    v: GraphView,
    src: NodeId,
    kind: EdgeKind,
    dst: NodeId,
    data: Seq<u8>,
    e: EdgeId,
)
    requires
        v.stocked(),
        v.unused(e),
        kind == EdgeKind::Owns ==> v.live(dst),
    ensures
        v.link(src, kind, dst, data, e.idx(), e.generation()).stocked(),
        v.link(src, kind, dst, data, e.idx(), e.generation()).follows(v),
{
    let w = v.link(src, kind, dst, data, e.idx(), e.generation());
    let s = v.edge_stock;
    crate::arena::alloc_keeps_stock(s);
    crate::id::edge_id_round_trip(e, s.next_index(), s.next_generation());
    assert(w.edge_stock == s.after_alloc() && w.node_stock == v.node_stock);
    assert forall|i: int| #[trigger] v.edge_age(i) <= w.edge_age(i) by {
        assert(s.age(i) <= w.edge_stock.age(i));
    }
    assert forall|x: u32| #[trigger] w.edges.contains_key(x) implies crate::arena::is_odd(
        w.edge_age(x as int),
    ) by {
        if x != e.idx() {
            assert(v.edges.contains_key(x));
        }
    }
    assert forall|id: NodeId| #[trigger] w.nodes.contains_key(id) implies id.kind() is Some
        && crate::arena::is_odd(w.node_age(id.kind()->Some_0, id.idx() as int)) by {
        assert(v.nodes.contains_key(id));
    }
}

proof fn then_ages(a: GraphView, b: GraphView, c: GraphView)
    requires
        b.follows(a),
        b.stocked(),
        c.same_stock(b),
    ensures
        c.follows(a),
        c.stocked(),
{
    same_stock_ages(b, c);
    following_on(a, b, c);
}

/// A new node takes the slot its kind's stock gives next.
proof fn adding_ages(g: Graph, body: crate::body::Body)
    requires
        g.wf(),
        !g@.node_stock[body.kind()].full(),
    ensures
        g@.with_node(g.next_node(body.kind()), body).stocked(),
        g@.with_node(g.next_node(body.kind()), body).follows(g@),
        g@.with_node(g.next_node(body.kind()), body).live(g.next_node(body.kind())),
{
    let v = g@;
    let k = body.kind();
    let id = g.next_node(k);
    let w = v.with_node(id, body);
    graphs_are_stocked(g);
    crate::laws_history::next_node_is_unused(g, k);
    let s = v.node_stock[k];
    crate::arena::alloc_keeps_stock(s);
    crate::id::node_id_round_trip(k, s.next_index(), s.next_generation());
    assert forall|x: NodeKind| (#[trigger] w.node_stock[x]).wf() && w.node_stock[x].gens.len()
        == Graph::cap(x) by {
        assert(v.node_stock[x].wf() && v.node_stock[x].gens.len() == Graph::cap(x));
    }
    assert forall|x: NodeKind, i: int| #[trigger] v.node_age(x, i) <= w.node_age(x, i) by {
        if x == k {
            assert(s.age(i) <= s.after_alloc().age(i));
        }
    }
    assert forall|n: NodeId| #[trigger] w.nodes.contains_key(n) implies n.kind() is Some
        && crate::arena::is_odd(w.node_age(n.kind()->Some_0, n.idx() as int)) by {
        if n != id {
            assert(v.nodes.contains_key(n));
            crate::laws_ids::live_at_its_generation(g, n);
            if n.kind() == Some(k) {
                assert(s.gens[n.idx() as int] == n.generation());
                assert(n.idx() != s.next_index());
            }
        }
    }
    assert forall|e: u32| #[trigger] w.edges.contains_key(e) implies crate::arena::is_odd(
        w.edge_age(e as int),
    ) by {
        assert(v.edges.contains_key(e));
    }
}

// -------------------------------------------------------------------- steps ---

proof fn deleting_ages(v: GraphView, id: NodeId)
    requires
        v.wf(),
        v.stocked(),
    ensures
        v.deleted(id).stocked(),
        v.deleted(id).follows(v),
{
    if v.live(id) && !v.dying(id) {
        let a = v.marked(id);
        same_stock_ages(v, a);
        crate::laws_reap::header_wf(v, id, crate::view::NodeView {
            flags: v.nodes[id].flags | crate::slab::FLAG_DYING,
            ..v.nodes[id]
        });
        unlinking_ages(a, id, Dir::In, EdgeKind::Owns);
        let b = a.unlink_first(id, Dir::In, EdgeKind::Owns);
        assert(b.live(id));
        unlinking_ages(b, id, Dir::In, EdgeKind::Ready);
        let c = b.unlink_first(id, Dir::In, EdgeKind::Ready);
        assert(c.live(id));
        unlinking_ages(c, id, Dir::Out, EdgeKind::Waiting);
        let d = c.unlink_first(id, Dir::Out, EdgeKind::Waiting);
        assert(d.live(id));
        following_on(v, a, b);
        following_on(v, b, c);
        following_on(v, c, d);
        then_ages(v, d, d.stopped(id).pending(id));
    } else {
        same_stock_ages(v, v);
    }
}

proof fn reaping_ages(g: Graph)
    requires
        g.wf(),
    ensures
        g@.reaped().0.since(g@),
        forall|id: NodeId| #[trigger]
            g@.live(id) && g@.dying(id) && g@.reaped().0.live(id) ==> g@.reaped().0.dying(id),
{
    let v = g@;
    graphs_are_stocked(g);
    let id = v.dying_head;
    let w = v.reaped().0;
    same_stock_ages(v, v);
    if !id.is_null() && v.live(id) {
        let key: ListKey = (id, Dir::Out, EdgeKind::Owns);
        assert(v.lists.contains_key(key));
        assert(v.list_ok(key));
        if v.lists[key].len() > 0 {
            deleting_ages(v, v.edges[v.lists[key][0]].dst);
        } else {
            match v.next_list(id) {
                Some((d, k)) => unlinking_ages(v, id, d, k),
                None => {
                    let x = id.kind()->Some_0;
                    assert(v.nodes.contains_key(id));
                    let s = v.node_stock[x];
                    crate::laws_ids::live_at_its_generation(g, id);
                    crate::arena::free_keeps_stock(s, id.idx());
                    assert forall|k: NodeKind, i: int| #[trigger] v.node_age(k, i) <= w.node_age(
                        k,
                        i,
                    ) by {
                        if k == x {
                            assert(s.age(i) <= s.after_free(id.idx()).age(i));
                        }
                    }
                },
            }
        }
    }
}

proof fn creating_ages(g: Graph, owner: NodeId, body: crate::body::Body)
    requires
        g.wf(),
        g.create_refusal(owner, body.kind()) is None,
    ensures
        ({
            let id = g.next_node(body.kind());
            let e = g.next_edge();
            g@.with_node(id, body).link(
                owner,
                EdgeKind::Owns,
                id,
                crate::edge::zeros(24),
                e.idx(),
                e.generation(),
            ).follows(g@)
        }),
{
    let id = g.next_node(body.kind());
    let e = g.next_edge();
    let u = g@.with_node(id, body);
    adding_ages(g, body);
    crate::laws_ipc::next_edge_is_unused(g);
    assert(u.unused(e));
    linking_ages(u, owner, EdgeKind::Owns, id, crate::edge::zeros(24), e);
    following_on(
        g@,
        u,
        u.link(
            owner,
            EdgeKind::Owns,
            id,
            crate::edge::zeros(24),
            e.idx(),
            e.generation(),
        ),
    );
}

proof fn trying_to_create_ages<B: NodeBody>(
    g0: Graph,
    g1: Graph,
    owner: NodeId,
    body: B,
    r: Result<Ref<B>, GraphError>,
)
    requires
        g0.wf(),
        g1.created(g0, owner, body, r),
    ensures
        g1@.follows(g0@),
{
    body.erase_kind();
    if g0.create_refusal(owner, B::spec_kind()) is None {
        creating_ages(g0, owner, body.erase());
    }
}

proof fn granting_ages(
    g0: Graph,
    g1: Graph,
    p: NodeId,
    target: NodeId,
    rights: Rights,
    r: Result<u32, GraphError>,
)
    requires
        g0.wf(),
        g1.capability_granted(g0, p, target, rights, r),
    ensures
        g1@.follows(g0@),
{
    if g0.grant_refusal(p, target) is None {
        granted_ages(g0, p, target, rights, g0@.process(p).free_slot()->Some_0);
    }
}

proof fn granted_ages(g: Graph, p: NodeId, target: NodeId, rights: Rights, slot: u32)
    requires
        g.wf(),
        g.grant_refusal(p, target) is None,
    ensures
        g@.granted(p, target, rights, slot, g.next_edge()).follows(g@),
        g@.granted(p, target, rights, slot, g.next_edge()).stocked(),
{
    let v = g@;
    graphs_are_stocked(g);
    crate::laws_ipc::next_edge_is_unused(g);
    let data = crate::edge::EdgeAttr::spec_bytes(crate::edge::HoldsAttr { rights, slot });
    linking_ages(v, p, EdgeKind::Holds, target, data, g.next_edge());
    then_ages(
        v,
        v.link(
            p,
            EdgeKind::Holds,
            target,
            data,
            g.next_edge().idx(),
            g.next_edge().generation(),
        ),
        v.granted(p, target, rights, slot, g.next_edge()),
    );
}

/// Taking a thread off the scheduler and linking it anew.
proof fn queueing_ages(v: GraphView, cpu: NodeId, t: NodeId, e: EdgeId)
    requires
        v.wf(),
        v.stocked(),
        v.live(t),
        v.descheduled(t).unused(e),
    ensures
        v.made_ready(cpu, t, e).follows(v),
        v.made_ready(cpu, t, e).stocked(),
{
    unlinking_ages(v, t, Dir::Out, EdgeKind::Waiting);
    let a = v.unlink_first(t, Dir::Out, EdgeKind::Waiting);
    assert(a.live(t));
    unlinking_ages(a, t, Dir::In, EdgeKind::Ready);
    let b = v.descheduled(t);
    assert(b.live(t));
    let data = crate::edge::EdgeAttr::spec_bytes(crate::edge::ReadyAttr { prio: 0 });
    linking_ages(b, cpu, EdgeKind::Ready, t, data, e);
    let c = b.link(cpu, EdgeKind::Ready, t, data, e.idx(), e.generation());
    following_on(v, a, b);
    following_on(v, b, c);
    then_ages(v, c, v.made_ready(cpu, t, e));
}

proof fn trying_to_queue_ages(g0: Graph, v1: GraphView, cpu: NodeId, t: NodeId)
    requires
        g0@.wf(),
        g0@.stocked(),
        crate::sched::queued(g0, v1, cpu, t),
    ensures
        v1.follows(g0@),
        v1.stocked(),
{
    same_stock_ages(g0@, g0@);
    if g0.ready_refusal(cpu, t) is None {
        let e = choose|e: EdgeId| #[trigger]
            g0@.descheduled(t).unused(e) && v1 == g0@.made_ready(cpu, t, e);
        queueing_ages(g0@, cpu, t, e);
    }
}

proof fn running_ages(v: GraphView, cpu: NodeId, t: NodeId)
    requires
        v.wf(),
        v.stocked(),
        v.live(t),
    ensures
        v.taken_to_run(t).follows(v),
        v.live(cpu) ==> v.taken_to_run(t).with_current(cpu, t).follows(v),
{
    unlinking_ages(v, t, Dir::In, EdgeKind::Ready);
    let a = v.unlink_first(t, Dir::In, EdgeKind::Ready);
    assert(a.live(t));
    then_ages(v, a, v.taken_to_run(t));
    if v.live(cpu) {
        assert(a.live(cpu));
        then_ages(v, a, v.taken_to_run(t).with_current(cpu, t));
    }
}

proof fn blocking_ages(v: GraphView, t: NodeId, on: NodeId, attr: WaitingAttr, e: EdgeId)
    requires
        v.wf(),
        v.stocked(),
        v.live(t),
        v.unlink_first(t, Dir::In, EdgeKind::Ready).unlink_first(
            t,
            Dir::Out,
            EdgeKind::Waiting,
        ).unused(e),
    ensures
        v.made_blocked(t, on, attr, e).follows(v),
{
    unlinking_ages(v, t, Dir::In, EdgeKind::Ready);
    let a = v.unlink_first(t, Dir::In, EdgeKind::Ready);
    assert(a.live(t));
    unlinking_ages(a, t, Dir::Out, EdgeKind::Waiting);
    let b = a.unlink_first(t, Dir::Out, EdgeKind::Waiting);
    assert(b.live(t));
    let data = crate::edge::EdgeAttr::spec_bytes(attr);
    linking_ages(b, t, EdgeKind::Waiting, on, data, e);
    let c = b.link(t, EdgeKind::Waiting, on, data, e.idx(), e.generation());
    following_on(v, a, b);
    following_on(v, b, c);
    then_ages(v, c, v.made_blocked(t, on, attr, e));
}

proof fn waking_ages(v: GraphView, cpu: NodeId, t: NodeId)
    requires
        v.wf(),
        v.stocked(),
        v.live(t),
        t.kind() == Some(NodeKind::Thread),
    ensures
        v.wait_ended(t).follows(v),
        forall|e: EdgeId| #[trigger]
            v.wait_ended(t).descheduled(t).unused(e) ==> v.wait_ended(t).made_ready(
                cpu,
                t,
                e,
            ).follows(v),
{
    unlinking_ages(v, t, Dir::Out, EdgeKind::Waiting);
    let a = v.unlink_first(t, Dir::Out, EdgeKind::Waiting);
    let u = v.wait_ended(t);
    assert(a.live(t));
    assert(a.nodes.contains_key(t));
    assert(a.node_ok(t));
    then_ages(v, a, u);
    crate::graph::view_body_wf(a, t, u.nodes[t].body);
    assert(u =~= a.with_body(t, u.nodes[t].body));
    assert forall|e: EdgeId| #[trigger] u.descheduled(t).unused(e) implies u.made_ready(
        cpu,
        t,
        e,
    ).follows(v) by {
        queueing_ages(u, cpu, t, e);
        following_on(v, u, u.made_ready(cpu, t, e));
    }
}

// ----------------------------------------------------------------- messages ---

proof fn handing_over_ages(
    g0: Graph,
    v1: GraphView,
    cpu0: NodeId,
    from: NodeId,
    to: NodeId,
    other: NodeId,
    r: Result<u32, i64>,
)
    requires
        g0.wf(),
        other.kind() == Some(NodeKind::Thread),
        crate::ipc::handed_over(g0, v1, cpu0, from, to, other, r),
    ensures
        v1.follows(g0@),
{
    let (ga, rd, ok) = choose|ga: Graph, rd: Result<u32, i64>, ok: bool| #[trigger]
        crate::ipc::handover_steps(g0, ga, v1, cpu0, from, to, other, rd, ok, r);
    let v = g0@;
    graphs_are_stocked(g0);
    same_stock_ages(v, v);
    let msg = v.thread(from).msg;
    let p = v.thread(to).owner_proc;
    if v.live(from) && v.live(to) {
        if !msg.carries() {
            same_stock_ages(v, ga@);
        } else if v.live(p) && p.kind() == Some(NodeKind::Process) && g0.grant_refusal(
            p,
            msg.cap_target,
        ) is None {
            let slot = v.process(p).free_slot()->Some_0;
            granted_ages(g0, p, msg.cap_target, Rights(msg.cap_rights), slot);
            let b = v.granted(p, msg.cap_target, Rights(msg.cap_rights), slot, g0.next_edge());
            assert(v.nodes.contains_key(to));
            then_ages(v, b, ga@);
        }
    }
    assert(ga@.follows(v));
    if rd is Ok && ga@.is_cpu(cpu0) {
        graphs_are_stocked(ga);
        same_stock_ages(ga@, ga@);
        if ga.link_refusal(cpu0, EdgeKind::Ready, other) is None {
            waking_ages(ga@, cpu0, other);
        }
        assert(v1.follows(ga@));
        following_on(v, ga@, v1);
    }
}

proof fn waiting_ages(g0: Graph, v1: GraphView, t: NodeId, on: NodeId, attr: WaitingAttr, ok: bool)
    requires
        g0.wf(),
        crate::ipc::waits(g0, v1, t, on, attr, ok),
    ensures
        v1.follows(g0@),
{
    graphs_are_stocked(g0);
    same_stock_ages(g0@, g0@);
    if g0.link_refusal(t, EdgeKind::Waiting, on) is None {
        let e = choose|e: EdgeId| #[trigger]
            g0@.unlink_first(t, Dir::In, EdgeKind::Ready).unlink_first(
                t,
                Dir::Out,
                EdgeKind::Waiting,
            ).unused(e) && v1 == g0@.made_blocked(t, on, attr, e);
        blocking_ages(g0@, t, on, attr, e);
    }
}

proof fn waiters_are_threads(
    v: GraphView,
    on: NodeId,
    role: crate::edge::WaitRole,
    t: NodeId,
)
    requires
        v.wf(),
        v.is_waiter(on, role, t),
    ensures
        t.kind() == Some(NodeKind::Thread),
{
    let i = choose|i: int| #[trigger]
        v.first_waiting(on, role, i) && t == v.edges[v.list_or_none(
            on,
            Dir::In,
            EdgeKind::Waiting,
        )[i]].src;
    let key: ListKey = (on, Dir::In, EdgeKind::Waiting);
    assert(v.nodes.contains_key(on));
    assert(v.lists.contains_key(key));
    assert(v.list_ok(key));
    let e = v.lists[key][i];
    assert(v.edges.contains_key(e));
    assert(v.edge_ok(e));
}

proof fn sending_ages(
    g0: Graph,
    v1: GraphView,
    cpu0: NodeId,
    me: NodeId,
    ep: NodeId,
    words: [u64; 8],
    cap_target: NodeId,
    cap_rights: Rights,
    r: Step<i64>,
)
    requires
        g0.wf(),
        crate::ipc::sent(g0, v1, cpu0, me, ep, words, cap_target, cap_rights, r),
    ensures
        v1.follows(g0@),
{
    graphs_are_stocked(g0);
    same_stock_ages(g0@, g0@);
    if ep.kind() == Some(NodeKind::Endpoint) && g0@.live(ep) && g0@.is_thread(me) {
        let (ga, m) = choose|ga: Graph, m: crate::body::Message| #[trigger]
            crate::ipc::parked(g0, ga, me, m) && crate::ipc::is_parcel(
                m,
                words,
                cap_target,
                cap_rights,
            ) && crate::ipc::message_offered(ga, v1, cpu0, me, ep, r);
        same_stock_ages(g0@, ga@);
        let recv = crate::edge::WaitRole::Recv;
        if exists|to: NodeId, rh: Result<u32, i64>|
            #![trigger ga@.is_waiter(ep, recv, to), crate::ipc::handed_over(ga, v1, cpu0, me, to, to, rh)]
            ga@.is_waiter(ep, recv, to) && crate::ipc::handed_over(ga, v1, cpu0, me, to, to, rh) {
            let (to, rh) = choose|to: NodeId, rh: Result<u32, i64>|
                #![trigger ga@.is_waiter(ep, recv, to), crate::ipc::handed_over(ga, v1, cpu0, me, to, to, rh)]
                ga@.is_waiter(ep, recv, to) && crate::ipc::handed_over(
                    ga,
                    v1,
                    cpu0,
                    me,
                    to,
                    to,
                    rh,
                );
            waiters_are_threads(ga@, ep, recv, to);
            handing_over_ages(ga, v1, cpu0, me, to, to, rh);
        } else {
            let attr = WaitingAttr { role: crate::edge::WaitRole::Send, badge: 0 };
            let ok = choose|ok: bool| #[trigger] crate::ipc::waits(ga, v1, me, ep, attr, ok);
            waiting_ages(ga, v1, me, ep, attr, ok);
        }
        following_on(g0@, ga@, v1);
    }
}

proof fn receiving_ages(
    g0: Graph,
    v1: GraphView,
    cpu0: NodeId,
    me: NodeId,
    ep: NodeId,
    r: Step<Received>,
)
    requires
        g0.wf(),
        crate::ipc::received(g0, v1, cpu0, me, ep, r),
    ensures
        v1.follows(g0@),
{
    graphs_are_stocked(g0);
    same_stock_ages(g0@, g0@);
    if ep.kind() == Some(NodeKind::Endpoint) && g0@.live(ep) && g0@.is_thread(me) {
        let send = crate::edge::WaitRole::Send;
        if exists|from: NodeId, rh: Result<u32, i64>|
            #![trigger g0@.is_waiter(ep, send, from), crate::ipc::handed_over(g0, v1, cpu0, from, me, from, rh)]
            g0@.is_waiter(ep, send, from) && crate::ipc::handed_over(
                g0,
                v1,
                cpu0,
                from,
                me,
                from,
                rh,
            ) {
            let (from, rh) = choose|from: NodeId, rh: Result<u32, i64>|
                #![trigger g0@.is_waiter(ep, send, from), crate::ipc::handed_over(g0, v1, cpu0, from, me, from, rh)]
                g0@.is_waiter(ep, send, from) && crate::ipc::handed_over(
                    g0,
                    v1,
                    cpu0,
                    from,
                    me,
                    from,
                    rh,
                );
            waiters_are_threads(g0@, ep, send, from);
            handing_over_ages(g0, v1, cpu0, from, me, from, rh);
        } else {
            let attr = WaitingAttr { role: crate::edge::WaitRole::Recv, badge: 0 };
            let ok = choose|ok: bool| #[trigger] crate::ipc::waits(g0, v1, me, ep, attr, ok);
            waiting_ages(g0, v1, me, ep, attr, ok);
        }
    }
}

// --------------------------------------------------------------- scheduling ---

proof fn scheduling_ages(
    g0: Graph,
    v1: GraphView,
    cpu: NodeId,
    kernel_pml4: u64,
    r: Option<Decision>,
)
    requires
        g0.wf(),
        g0@.inv(),
        crate::sched::scheduled(g0, v1, cpu, kernel_pml4, r),
    ensures
        v1.follows(g0@),
{
    let v = g0@;
    graphs_are_stocked(g0);
    same_stock_ages(v, v);
    if v.is_cpu(cpu) && v.queue_head(cpu) is Some {
        let next = v.queue_head(cpu)->Some_0;
        let current = v.cpu(cpu).current;
        let turned = v.rotate(cpu, Dir::Out, EdgeKind::Ready);
        let key: ListKey = (cpu, Dir::Out, EdgeKind::Ready);
        assert(v.lists.contains_key(key));
        assert(v.list_ok(key));
        assert(v.edges.contains_key(v.lists[key][0]));
        assert(v.edge_ok(v.lists[key][0]));
        crate::laws_run::rotating_keeps_invariants(v, cpu);
        same_stock_ages(v, turned);
        if next != current {
            let (g1, v2) = choose|g1: Graph, v2: GraphView|
                g1@ == turned && #[trigger] crate::sched::put_back(g1, v2, cpu, current) && v1
                    == v2.taken_to_run(next).with_current(cpu, next);
            same_stock_ages(turned, turned);
            if turned.is_thread(current) && turned.thread(current).state
                == crate::body::ThreadState::Running {
                trying_to_queue_ages(g1, v2, cpu, current);
                crate::laws_calls::trying_to_queue_keeps_invariants(g1, v2, cpu, current);
            }
            assert(turned.nodes.contains_key(next) && turned.nodes.contains_key(cpu));
            assert(v2.nodes.contains_key(next) && v2.nodes.contains_key(cpu));
            running_ages(v2, cpu, next);
            following_on(v, turned, v2);
            following_on(v, v2, v1);
        }
    }
}

proof fn making_an_endpoint_ages(g0: Graph, g1: Graph, t: NodeId, r: i64)
    requires
        g0.wf(),
        crate::syscall_objects::endpoint_made(g0, g1, t, r),
    ensures
        g1@.follows(g0@),
{
    if g0@.process_of(t) is Some {
        let p = g0@.process_of(t)->Some_0;
        let (ga, re, rg) = choose|
            ga: Graph,
            re: Result<Ref<crate::body::Endpoint>, GraphError>,
            rg: Result<u32, GraphError>,
        | #[trigger]
            crate::syscall_objects::endpoint_steps(g0, ga, g1, p, re, rg, r);
        trying_to_create_ages(
            g0,
            ga,
            p,
            <crate::body::Endpoint as NodeBody>::spec_zero(),
            re,
        );
        if let Ok(ep) = re {
            granting_ages(ga, g1, p, ep.id(), Rights(255), rg);
            following_on(g0@, ga@, g1@);
        }
    }
}

proof fn making_a_kernel_thread_ages(
    g0: Graph,
    g1: Graph,
    root: NodeId,
    cpu0: NodeId,
    s: crate::sched::Stack,
    r: Result<Ref<Thread>, VmError>,
)
    requires
        g0.wf(),
        crate::sched::kernel_thread_made(g0, g1, root, cpu0, s, r),
    ensures
        g1@.follows(g0@),
{
    let (ga, gb, ra) = choose|ga: Graph, gb: Graph, ra: Result<Ref<Thread>, GraphError>| #[trigger]
        crate::sched::kernel_thread_steps(g0, ga, gb, g1, root, cpu0, s, ra, r);
    trying_to_create_ages(g0, ga, root, crate::sched::kernel_thread(s), ra);
    if let Ok(t) = ra {
        if ga.create_refusal(t.id(), NodeKind::MemoryObject) is None {
            let body = crate::vm::fresh_object(s.phys, crate::sched::KSTACK_PAGES);
            let rb = choose|rb: Result<Ref<MemoryObject>, GraphError>| #[trigger]
                gb.created(ga, t.id(), body, rb);
            trying_to_create_ages(ga, gb, t.id(), body, rb);
            following_on(g0@, ga@, gb@);
            graphs_are_stocked(gb);
            if gb@.is_cpu(cpu0) && gb.ready_refusal(cpu0, t.id()) is None {
                trying_to_queue_ages(gb, g1@, cpu0, t.id());
                following_on(g0@, gb@, g1@);
            }
        }
    }
}

proof fn starting_ages(g0: Graph, g1: Graph, cpu0: NodeId, child: NodeId, r: i64)
    requires
        g0.wf(),
        crate::syscall_objects::started(g0, g1, cpu0, child, r),
    ensures
        g1@.follows(g0@),
{
    graphs_are_stocked(g0);
    if g1 != g0 {
        let (i, p, rq) = choose|
            i: int,
            p: Ref<crate::body::Process>,
            rq: Result<Ref<crate::body::Process>, crate::proc::SpawnError>,
        |
            #![trigger crate::spawn::first_owned_thread(g0@, child, i), crate::syscall_objects::queued_first(g0, g1, cpu0, child, i, p, rq)]
            crate::spawn::first_owned_thread(g0@, child, i)
                && crate::syscall_objects::queued_first(g0, g1, cpu0, child, i, p, rq);
        let t = g0@.edges[g0@.list(child, Dir::Out, EdgeKind::Owns)[i]].dst;
        if g0@.is_cpu(cpu0) && g0.ready_refusal(cpu0, t) is None {
            trying_to_queue_ages(g0, g1@, cpu0, t);
        }
    }
}

// --------------------------------------------------------------------- laws ---

/// No call takes a slot back to an earlier generation, and none takes the mark
/// off a node that is going away.
#[verifier::spinoff_prover]
#[verifier::rlimit(60)]
pub proof fn every_call_only_ages(call: Call, g0: Graph, g1: Graph)
    requires
        g0.wf(),
        g1.wf(),
        g0@.inv(),
        call.leads(g0, g1),
    ensures
        g1@.since(g0@),
        forall|id: NodeId| #[trigger]
            g0@.live(id) && g0@.dying(id) && g1@.live(id) ==> g1@.dying(id),
{
    let v = g0@;
    graphs_are_stocked(g0);
    same_stock_ages(v, v);
    if g1@ != v {
        if !v.edge_stock.full() {
            crate::laws_ipc::next_edge_is_unused(g0);
        }
        match call {
            Call::CreateRoot => {
                let body = crate::body::Body::Root(<crate::body::Root as NodeBody>::spec_zero());
                adding_ages(g0, body);
                then_ages(v, v.with_node(g0.next_node(NodeKind::Root), body), g1@);
            },
            Call::Create { owner, body } => creating_ages(g0, owner, body),
            Call::Name { root, dst, name } => linking_ages(
                v,
                root,
                EdgeKind::Named,
                dst,
                crate::names::name_data(name),
                g0.next_edge(),
            ),
            Call::Grant { holder, target, rights } => {
                let r = choose|r: Result<u32, GraphError>| #[trigger]
                    g1.capability_granted(g0, holder, target, rights, r);
                granting_ages(g0, g1, holder, target, rights, r);
            },
            Call::Unlink { e } => one_unlink_ages(v, e),
            Call::Bind { t, s } => {
                let u = v.unlink_first(t, Dir::Out, EdgeKind::InSpace);
                unlinking_ages(v, t, Dir::Out, EdgeKind::InSpace);
                let e = u.next_edge();
                assert(u.live(t));
                linking_ages(u, t, EdgeKind::InSpace, s, crate::edge::zeros(24), e);
                let w = u.link(
                    t,
                    EdgeKind::InSpace,
                    s,
                    crate::edge::zeros(24),
                    e.idx(),
                    e.generation(),
                );
                following_on(v, u, w);
                then_ages(v, w, g1@);
            },
            Call::MapMemory { s, m, attr } => {
                let e = v.next_edge();
                let data = crate::edge::EdgeAttr::spec_bytes(attr);
                linking_ages(v, s, EdgeKind::Maps, m, data, e);
                then_ages(v, v.link(s, EdgeKind::Maps, m, data, e.idx(), e.generation()), g1@);
            },
            Call::Queue { cpu, t } => trying_to_queue_ages(g0, g1@, cpu, t),
            Call::Run { cpu, t } => running_ages(v, cpu, t),
            Call::Block { t, on, attr } => {
                let u = v.unlink_first(t, Dir::In, EdgeKind::Ready).unlink_first(
                    t,
                    Dir::Out,
                    EdgeKind::Waiting,
                );
                blocking_ages(v, t, on, attr, u.next_edge());
            },
            Call::Wake { cpu, t } => waking_ages(v, cpu, t),
            Call::Rotate { cpu } => same_stock_ages(v, g1@),
            Call::Delete { id } => deleting_ages(v, id),
            Call::Reap => reaping_ages(g0),
            _ => kernel_calls_only_age(call, g0, g1),
        }
    }
}

proof fn kernel_calls_only_age(call: Call, g0: Graph, g1: Graph)
    requires
        g0.wf(),
        g1.wf(),
        g0@.inv(),
        call.done(g0, g1),
        call is Send || call is Receive || call is FinishWait || call is Schedule || call is GiveUp
            || call is RecordEnd || call is LookUp || call is MakeEndpoint || call is Start
            || call is MakeKernelThread,
    ensures
        g1@.follows(g0@),
{
    let v = g0@;
    let w = g1@;
    graphs_are_stocked(g0);
    match call {
        Call::Send { cpu, me, ep, words, cap_target, cap_rights } => {
            let r = choose|r: Step<i64>| #[trigger]
                crate::ipc::sent(g0, w, cpu, me, ep, words, cap_target, cap_rights, r);
            sending_ages(g0, w, cpu, me, ep, words, cap_target, cap_rights, r);
        },
        Call::Receive { cpu, me, ep } => {
            let r = choose|r: Step<Received>| #[trigger]
                crate::ipc::received(g0, w, cpu, me, ep, r);
            receiving_ages(g0, w, cpu, me, ep, r);
        },
        Call::FinishWait { t } => same_stock_ages(v, w),
        Call::Schedule { cpu, kernel_pml4 } => {
            let r = choose|r: Option<Decision>| #[trigger]
                crate::sched::scheduled(g0, w, cpu, kernel_pml4, r);
            scheduling_ages(g0, w, cpu, kernel_pml4, r);
        },
        Call::GiveUp { cpu, t } => {
            deleting_ages(v, t);
            then_ages(v, v.deleted(t), w);
        },
        Call::RecordEnd { t, code } => same_stock_ages(v, w),
        Call::LookUp { t, name } => {
            let r = choose|r: i64| #[trigger] crate::syscall::looked_up(g0, g1, t, name, r);
            same_stock_ages(v, v);
            if g1 != g0 {
                let p = v.process_of(t)->Some_0;
                let text = vstd::utf8::decode_utf8(name->Some_0);
                let (i, rg) = choose|i: int, rg: Result<u32, GraphError>|
                    #![trigger v.first_spelled(text, i), crate::syscall::name_granted(g0, g1, p, i, rg)]
                    v.first_spelled(text, i) && crate::syscall::name_granted(g0, g1, p, i, rg);
                let found = v.edges[v.list(v.root_id, Dir::Out, EdgeKind::Named)[i]].dst;
                granting_ages(g0, g1, p, found, crate::syscall::lookup_rights(found.kind()), rg);
            }
        },
        Call::MakeEndpoint { t } => {
            let r = choose|r: i64| #[trigger]
                crate::syscall_objects::endpoint_made(g0, g1, t, r);
            making_an_endpoint_ages(g0, g1, t, r);
        },
        Call::Start { cpu, child } => {
            let r = choose|r: i64| #[trigger]
                crate::syscall_objects::started(g0, g1, cpu, child, r);
            starting_ages(g0, g1, cpu, child, r);
        },
        Call::MakeKernelThread { root, cpu, stack } => {
            let r = choose|r: Result<Ref<Thread>, VmError>| #[trigger]
                crate::sched::kernel_thread_made(g0, g1, root, cpu, stack, r);
            making_a_kernel_thread_ages(g0, g1, root, cpu, stack, r);
        },
        _ => {},
    }
}

/// Any run of calls from the empty graph is one over which no arena hands out
/// an id twice, and no id once freed is live again.
pub proof fn histories_only_age(run: Seq<Graph>, calls: Seq<Call>)
    requires
        crate::laws_history::history(run, calls),
    ensures
        crate::laws_ids::is_run(run),
{
    assert forall|i: int, j: int| 0 <= i < run.len() && j == i + 1 && j < run.len() implies (
    #[trigger] run[j])@.since((#[trigger] run[i])@) by {
        crate::laws_history::every_history_passes_the_checker(run, calls, i);
        assert(calls[i].leads(run[i], run[i + 1]));
        every_call_only_ages(calls[i], run[i], run[j]);
    }
}

/// A node that is going away is going away until it is gone, whatever is
/// called in between: asking for its deletion again changes nothing until
/// then, and finds it stale from then on.
pub proof fn the_mark_lasts(run: Seq<Graph>, calls: Seq<Call>, i: int, j: int, id: NodeId)
    requires
        crate::laws_history::history(run, calls),
        0 <= i <= j < run.len(),
        run[i]@.live(id),
        run[i]@.dying(id),
    ensures
        run[j]@.live(id) ==> run[j]@.dying(id) && run[j]@.deleted(id) == run[j]@,
        !run[j]@.live(id) ==> forall|k: int|
            j <= k < run.len() ==> !(#[trigger] run[k])@.live(id),
    decreases j - i,
{
    histories_only_age(run, calls);
    if !run[j]@.live(id) {
        assert forall|k: int| j <= k < run.len() implies !(#[trigger] run[k])@.live(id) by {
            crate::laws_ids::freed_ids_stay_freed(run, i, j, k, id);
        }
    }
    if i < j {
        the_mark_lasts(run, calls, i, j - 1, id);
        let k = j - 1;
        crate::laws_history::every_history_passes_the_checker(run, calls, k);
        assert(calls[k].leads(run[k], run[k + 1]));
        every_call_only_ages(calls[k], run[k], run[j]);
        if !run[k]@.live(id) {
            assert(!run[j]@.live(id));
        }
    }
}

} // verus!

//! Scheduling keeps every invariant, and a run queue is first in, first out.

use vstd::prelude::*;

use crate::body::{Body, Cpu, Thread, ThreadState};
use crate::edge::{Dir, EdgeAttr, ReadyAttr, WaitingAttr};
use crate::id::{EdgeId, EdgeKind, NodeId, NodeKind};
use crate::view::{GraphView, ListKey};

verus! {

/// Linking a scheduler edge of a thread bears on that thread alone.
proof fn thread_edge_comes(
    v: GraphView,
    src: NodeId,
    kind: EdgeKind,
    dst: NodeId,
    data: Seq<u8>,
    e: EdgeId,
    t: NodeId,
)
    requires
        v.wf(),
        v.inv_but(t),
        v.live(src),
        v.live(dst),
        crate::id::spec_compatible(kind, src.kind()->Some_0, dst.kind()->Some_0),
        kind == EdgeKind::Ready && dst == t || kind == EdgeKind::Waiting && src == t,
        v.unused(e),
        data.len() == 24,
    ensures
        v.link(src, kind, dst, data, e.idx(), e.generation()).wf(),
        v.link(src, kind, dst, data, e.idx(), e.generation()).inv_but(t),
{
    let (ei, eg) = (e.idx(), e.generation());
    let w = v.link(src, kind, dst, data, ei, eg);
    crate::link::link_wf(v, src, kind, dst, data, ei, eg);
    crate::invariants::link_keeps_tree(v, src, kind, dst, data, ei, eg);
    crate::invariants::nodes_keep_roots(v, w);
    assert forall|n: NodeId| #[trigger] w.nodes.contains_key(n) && n != t implies w.body_ok(n) by {
        assert(v.nodes.contains_key(n));
        crate::invariants::link_keeps_bodies(v, src, kind, dst, data, ei, eg, n);
    }
}

/// Rewriting a thread's body bears on that thread alone.
pub proof fn thread_body_changes(v: GraphView, t: NodeId, b: Thread)
    requires
        v.wf(),
        v.inv_but(t),
        v.live(t),
        t.kind() == Some(NodeKind::Thread),
    ensures
        v.with_body(t, Body::Thread(b)).wf(),
        v.with_body(t, Body::Thread(b)).inv_but(t),
{
    let body = Body::Thread(b);
    let w = v.with_body(t, body);
    assert(v.nodes.contains_key(t));
    assert(v.node_ok(t));
    crate::graph::view_body_wf(v, t, body);
    crate::invariants::with_body_keeps_tree(v, t, body);
    crate::invariants::with_body_keeps_roots(v, t, body);
    assert forall|n: NodeId| #[trigger] w.nodes.contains_key(n) && n != t implies w.body_ok(n) by {
        assert(v.nodes.contains_key(n));
        crate::invariants::with_body_keeps_bodies(v, t, body, n);
    }
}

/// Taking a consistent thread off one queue.
proof fn off_ready(v: GraphView, t: NodeId)
    requires
        v.wf(),
        v.inv_but(t),
        v.live(t),
        t.kind() == Some(NodeKind::Thread),
        v.single_ok(t),
        v.cr3_ok(t),
    ensures
        ({
            let w = v.unlink_first(t, Dir::In, EdgeKind::Ready);
            &&& w.wf()
            &&& w.inv_but(t)
            &&& w.live(t)
            &&& w.single_ok(t)
            &&& w.cr3_ok(t)
            &&& w.list(t, Dir::In, EdgeKind::Ready).len() == 0
            &&& w.list(t, Dir::Out, EdgeKind::Waiting) == v.list(t, Dir::Out, EdgeKind::Waiting)
            &&& w.thread(t) == v.thread(t)
            &&& w.dying(t) == v.dying(t)
            &&& forall|n: NodeId| #[trigger] w.nodes.contains_key(n) == v.nodes.contains_key(n)
        }),
{
    let key: ListKey = (t, Dir::In, EdgeKind::Ready);
    assert(v.lists.contains_key(key));
    assert(v.list_ok(key));
    let s = v.lists[key];
    if s.len() > 0 {
        let e = s[0];
        assert(v.edges.contains_key(e));
        assert(s.contains(e));
        crate::laws::thread_edge_goes(v, e, t);
        crate::laws::only_member_goes(v, t, Dir::In, EdgeKind::Ready, e);
        crate::steps::unlink_keeps_nodes(v, e);
        crate::laws::root_table_stays(v, v.unlink(e), t);
    }
}

/// Ending the wait of a thread whose lists are single-valued.
proof fn off_waiting(v: GraphView, t: NodeId)
    requires
        v.wf(),
        v.inv_but(t),
        v.live(t),
        t.kind() == Some(NodeKind::Thread),
        v.single_ok(t),
        v.cr3_ok(t),
    ensures
        ({
            let w = v.unlink_first(t, Dir::Out, EdgeKind::Waiting);
            &&& w.wf()
            &&& w.inv_but(t)
            &&& w.live(t)
            &&& w.single_ok(t)
            &&& w.cr3_ok(t)
            &&& w.list(t, Dir::Out, EdgeKind::Waiting).len() == 0
            &&& w.list(t, Dir::In, EdgeKind::Ready) == v.list(t, Dir::In, EdgeKind::Ready)
            &&& v.list(t, Dir::Out, EdgeKind::Waiting).len() == 0 ==> w == v
            &&& v.list(t, Dir::Out, EdgeKind::Waiting).len() > 0 ==> w.thread(t)
                == v.thread(t).wait_torn_down()
            &&& w.dying(t) == v.dying(t)
            &&& forall|n: NodeId| #[trigger] w.nodes.contains_key(n) == v.nodes.contains_key(n)
        }),
{
    let key: ListKey = (t, Dir::Out, EdgeKind::Waiting);
    assert(v.lists.contains_key(key));
    assert(v.list_ok(key));
    assert(v.nodes.contains_key(t));
    assert(v.node_ok(t));
    let s = v.lists[key];
    if s.len() > 0 {
        let e = s[0];
        assert(v.edges.contains_key(e));
        assert(s.contains(e));
        crate::laws::thread_edge_goes(v, e, t);
        crate::laws::only_member_goes(v, t, Dir::Out, EdgeKind::Waiting, e);
        crate::steps::unlink_keeps_nodes(v, e);
        crate::laws::root_table_stays(v, v.unlink(e), t);
    }
}

/// Queueing a thread keeps every invariant.
pub proof fn queueing_keeps_invariants(v: GraphView, cpu: NodeId, t: NodeId, e: EdgeId)
    requires
        v.wf(),
        v.inv(),
        v.live(cpu),
        v.live(t),
        cpu.kind() == Some(NodeKind::Cpu),
        t.kind() == Some(NodeKind::Thread),
        !v.dying(t),
        v.descheduled(t).unused(e),
    ensures
        v.made_ready(cpu, t, e).inv(),
        v.made_ready(cpu, t, e).wf(),
        v.made_ready(cpu, t, e).thread(t).state == ThreadState::Ready,
{
    assert(v.nodes.contains_key(t));
    assert(v.node_ok(t) && v.body_ok(t));
    off_waiting(v, t);
    let v1 = v.unlink_first(t, Dir::Out, EdgeKind::Waiting);
    off_ready(v1, t);
    let v2 = v1.unlink_first(t, Dir::In, EdgeKind::Ready);
    assert(v2 == v.descheduled(t));
    assert(v2.nodes.contains_key(cpu)) by {
        assert(v.nodes.contains_key(cpu));
        assert(v1.nodes.contains_key(cpu));
    }
    let attr = ReadyAttr { prio: 0 };
    attr.round_trip();
    let data = attr.spec_bytes();
    thread_edge_comes(v2, cpu, EdgeKind::Ready, t, data, e, t);
    let v3 = v2.link(cpu, EdgeKind::Ready, t, data, e.idx(), e.generation());
    crate::laws::root_table_stays(v2, v3, t);
    let b = Thread { state: ThreadState::Ready, ..v3.thread(t) };
    thread_body_changes(v3, t, b);
    let w = v3.with_body(t, Body::Thread(b));
    crate::laws::root_table_stays(v3, w, t);
    assert(v3.nodes.contains_key(t));
    assert(v3.node_ok(t));
    crate::laws::inv_restored(w, t);
}

/// Running a thread keeps every invariant, as long as it is not waiting for
/// anything.
pub proof fn running_keeps_invariants(v: GraphView, cpu: NodeId, t: NodeId)
    requires
        v.wf(),
        v.inv(),
        v.live(t),
        t.kind() == Some(NodeKind::Thread),
        cpu.kind() == Some(NodeKind::Cpu),
        v.list(t, Dir::Out, EdgeKind::Waiting).len() == 0,
    ensures
        v.taken_to_run(t).wf(),
        v.taken_to_run(t).inv(),
        v.live(cpu) ==> v.taken_to_run(t).with_current(cpu, t).wf() && v.taken_to_run(
            t,
        ).with_current(cpu, t).inv(),
{
    assert(v.nodes.contains_key(t));
    assert(v.node_ok(t) && v.body_ok(t));
    off_ready(v, t);
    let v1 = v.unlink_first(t, Dir::In, EdgeKind::Ready);
    let b = Thread { state: ThreadState::Running, ..v1.thread(t) };
    thread_body_changes(v1, t, b);
    let w = v1.with_body(t, Body::Thread(b));
    crate::laws::root_table_stays(v1, w, t);
    assert(v1.nodes.contains_key(t));
    assert(v1.node_ok(t));
    crate::laws::inv_restored(w, t);
    if v.live(cpu) {
        assert(v.nodes.contains_key(cpu));
        assert(v1.nodes.contains_key(cpu));
        assert(w.nodes.contains_key(cpu));
        assert(w.node_ok(cpu));
        unlisted_body_change_keeps_invariants(
            w,
            cpu,
            Body::Cpu(Cpu { current: t, ..w.cpu(cpu) }),
        );
    }
}

/// Changing a body in fields that no invariant speaks of keeps every
/// invariant: a message, a saved register, a counter.
pub proof fn unlisted_body_change_keeps_invariants(v: GraphView, id: NodeId, body: Body)
    requires
        v.wf(),
        v.inv(),
        v.live(id),
        body.kind() == v.nodes[id].body.kind(),
        body matches Body::Process(p) ==> p.handles == v.process(id).handles,
        body matches Body::Thread(t) ==> t.state == v.thread(id).state && t.cr3 == v.thread(
            id,
        ).cr3,
        body matches Body::AddressSpace(s) ==> s.pml4_phys == v.space(id).pml4_phys
            && s.mapping_count == v.space(id).mapping_count && s.ranges == v.space(id).ranges,
        body matches Body::MemoryObject(m) ==> m.map_count == v.memobj(id).map_count,
    ensures
        v.with_body(id, body).wf(),
        v.with_body(id, body).inv(),
{
    let w = v.with_body(id, body);
    assert(v.nodes.contains_key(id));
    assert(v.node_ok(id) && v.body_ok(id));
    assert(body.bounded());
    crate::graph::view_body_wf(v, id, body);
    crate::invariants::with_body_keeps_tree(v, id, body);
    crate::invariants::with_body_keeps_roots(v, id, body);
    assert forall|n: NodeId| #[trigger] w.nodes.contains_key(n) implies w.body_ok(n) by {
        assert(v.nodes.contains_key(n));
        if n != id {
            crate::invariants::with_body_keeps_bodies(v, id, body, n);
        } else {
            match body {
                Body::Thread(_) => {
                    crate::laws::root_table_stays(v, w, id);
                },
                Body::Process(p) => {
                    let key: ListKey = (id, Dir::Out, EdgeKind::Holds);
                    assert(v.lists.contains_key(key));
                    assert(w.handles_ok(id));
                },
                Body::AddressSpace(s) => {
                    assert(s.indexed() == v.space(id).indexed());
                    assert(w.index_ok(id));
                },
                _ => {},
            }
        }
    }
}

/// Blocking a thread keeps every invariant.
pub proof fn blocking_keeps_invariants(
    v: GraphView,
    t: NodeId,
    on: NodeId,
    attr: WaitingAttr,
    e: EdgeId,
)
    requires
        v.wf(),
        v.inv(),
        v.live(t),
        v.live(on),
        t.kind() == Some(NodeKind::Thread),
        on.kind() is Some,
        crate::id::spec_compatible(EdgeKind::Waiting, NodeKind::Thread, on.kind()->Some_0),
        !v.dying(t),
        v.unlink_first(t, Dir::In, EdgeKind::Ready).unlink_first(
            t,
            Dir::Out,
            EdgeKind::Waiting,
        ).unused(e),
    ensures
        v.made_blocked(t, on, attr, e).wf(),
        v.made_blocked(t, on, attr, e).inv(),
        v.made_blocked(t, on, attr, e).thread(t).state == ThreadState::Blocked,
{
    assert(v.nodes.contains_key(t));
    assert(v.node_ok(t) && v.body_ok(t));
    off_ready(v, t);
    let v1 = v.unlink_first(t, Dir::In, EdgeKind::Ready);
    off_waiting(v1, t);
    let v2 = v1.unlink_first(t, Dir::Out, EdgeKind::Waiting);
    assert(v2.nodes.contains_key(on)) by {
        assert(v.nodes.contains_key(on));
        assert(v1.nodes.contains_key(on));
    }
    attr.round_trip();
    let data = attr.spec_bytes();
    thread_edge_comes(v2, t, EdgeKind::Waiting, on, data, e, t);
    let v3 = v2.link(t, EdgeKind::Waiting, on, data, e.idx(), e.generation());
    crate::laws::root_table_stays(v2, v3, t);
    let b = Thread { state: ThreadState::Blocked, ..v3.thread(t) };
    thread_body_changes(v3, t, b);
    let w = v3.with_body(t, Body::Thread(b));
    crate::laws::root_table_stays(v3, w, t);
    assert(v3.nodes.contains_key(t));
    assert(v3.node_ok(t));
    crate::laws::inv_restored(w, t);
}

/// Waking a thread keeps every invariant, and a thread woken in the ordinary
/// way does not look aborted.
pub proof fn waking_keeps_invariants(v: GraphView, cpu: NodeId, t: NodeId, e: EdgeId)
    requires
        v.wf(),
        v.inv(),
        v.live(cpu),
        v.live(t),
        cpu.kind() == Some(NodeKind::Cpu),
        t.kind() == Some(NodeKind::Thread),
        !v.dying(t),
        !v.wait_ended(t).cannot_queue(t),
        v.wait_ended(t).descheduled(t).unused(e),
    ensures
        v.wait_ended(t).made_ready(cpu, t, e).wf(),
        v.wait_ended(t).made_ready(cpu, t, e).inv(),
        v.wait_ended(t).made_ready(cpu, t, e).thread(t).state == ThreadState::Ready,
        v.wait_ended(t).made_ready(cpu, t, e).thread(t).wait_aborted == 0,
{
    assert(v.nodes.contains_key(t));
    assert(v.node_ok(t) && v.body_ok(t));
    off_waiting(v, t);
    let v1 = v.unlink_first(t, Dir::Out, EdgeKind::Waiting);
    let b = v.wait_ended(t).thread(t);
    thread_body_changes(v1, t, b);
    let v2 = v.wait_ended(t);
    assert(v2 == v1.with_body(t, Body::Thread(b)));
    crate::laws::root_table_stays(v1, v2, t);
    assert(v1.nodes.contains_key(t));
    assert(v1.node_ok(t));
    off_waiting(v2, t);
    off_ready(v2, t);
    assert(v2.descheduled(t) == v2.unlink_first(t, Dir::In, EdgeKind::Ready));
    let v3 = v2.descheduled(t);
    assert(v3.nodes.contains_key(cpu)) by {
        assert(v.nodes.contains_key(cpu));
        assert(v1.nodes.contains_key(cpu));
        assert(v2.nodes.contains_key(cpu));
    }
    let attr = ReadyAttr { prio: 0 };
    attr.round_trip();
    let data = attr.spec_bytes();
    thread_edge_comes(v3, cpu, EdgeKind::Ready, t, data, e, t);
    let v4 = v3.link(cpu, EdgeKind::Ready, t, data, e.idx(), e.generation());
    crate::laws::root_table_stays(v3, v4, t);
    let b4 = Thread { state: ThreadState::Ready, ..v4.thread(t) };
    thread_body_changes(v4, t, b4);
    let w = v4.with_body(t, Body::Thread(b4));
    crate::laws::root_table_stays(v4, w, t);
    assert(v4.nodes.contains_key(t));
    assert(v4.node_ok(t));
    crate::laws::inv_restored(w, t);
}

/// Rotating a run queue keeps every invariant.
pub proof fn rotating_keeps_invariants(v: GraphView, cpu: NodeId)
    requires
        v.wf(),
        v.inv(),
        v.live(cpu),
        cpu.kind() == Some(NodeKind::Cpu),
        v.list(cpu, Dir::Out, EdgeKind::Ready).len() > 0,
    ensures
        v.rotate(cpu, Dir::Out, EdgeKind::Ready).wf(),
        v.rotate(cpu, Dir::Out, EdgeKind::Ready).inv(),
{
    let w = v.rotate(cpu, Dir::Out, EdgeKind::Ready);
    let key: ListKey = (cpu, Dir::Out, EdgeKind::Ready);
    assert(v.lists.contains_key(key));
    crate::threads::rotate_wf(v, key);
    crate::invariants::owned_frame(v, w);
    crate::invariants::nodes_keep_roots(v, w);
    assert forall|n: NodeId| #[trigger] w.nodes.contains_key(n) implies w.body_ok(n) by {
        assert(v.nodes.contains_key(n));
        assert(v.node_ok(n));
        if n.kind() == Some(NodeKind::Thread) {
            crate::laws::root_table_stays(v, w, n);
        }
        crate::invariants::body_frame(v, w, n);
    }
}

/// A run queue is first in, first out: a thread queued behind others leaves
/// them where they were and goes last.
pub proof fn queueing_goes_last(v: GraphView, cpu: NodeId, t: NodeId, e: EdgeId)
    requires
        v.wf(),
        v.live(cpu),
        v.live(t),
        cpu.kind() == Some(NodeKind::Cpu),
        t.kind() == Some(NodeKind::Thread),
        v.list(t, Dir::In, EdgeKind::Ready).len() == 0,
        v.list(t, Dir::Out, EdgeKind::Waiting).len() == 0,
        v.unused(e),
    ensures
        v.made_ready(cpu, t, e).run_queue(cpu) == v.run_queue(cpu).push(t),
{
    let w = v.made_ready(cpu, t, e);
    let key: ListKey = (cpu, Dir::Out, EdgeKind::Ready);
    assert(v.lists.contains_key(key));
    assert(v.list_ok(key));
    let s = v.lists[key];
    assert(w.lists[key] == s.push(e.idx()));
    assert forall|i: int| 0 <= i < s.len() implies w.edges[#[trigger] s[i]].dst
        == v.edges[s[i]].dst by {
        assert(v.edges.contains_key(s[i]));
    }
    assert(w.run_queue(cpu) =~= v.run_queue(cpu).push(t));
}

/// Rotating moves the head of the queue to its tail and nothing else, so that
/// as many rotations as the queue is long bring it round to where it was.
pub proof fn rotating_moves_the_head(v: GraphView, cpu: NodeId)
    requires
        v.live(cpu),
        v.list(cpu, Dir::Out, EdgeKind::Ready).len() > 0,
    ensures
        v.rotate(cpu, Dir::Out, EdgeKind::Ready).run_queue(cpu) == v.run_queue(
            cpu,
        ).drop_first().push(v.run_queue(cpu)[0]),
        v.queue_head(cpu) == Some(v.run_queue(cpu)[0]),
{
    let w = v.rotate(cpu, Dir::Out, EdgeKind::Ready);
    assert(w.run_queue(cpu) =~= v.run_queue(cpu).drop_first().push(v.run_queue(cpu)[0]));
}

/// A queue rotated `n` times.
pub open spec fn rotated_times(v: GraphView, cpu: NodeId, n: nat) -> GraphView
    decreases n,
{
    if n == 0 {
        v
    } else {
        rotated_times(v, cpu, (n - 1) as nat).rotate(cpu, Dir::Out, EdgeKind::Ready)
    }
}

/// After `n` rotations, for `n` up to the length of the queue, the thread that
/// stood at position `n` is at the head: every thread gets its turn, in order,
/// and the queue comes round to where it was.
pub proof fn every_thread_gets_its_turn(v: GraphView, cpu: NodeId, n: nat)
    requires
        v.live(cpu),
        v.run_queue(cpu).len() > 0,
        n <= v.run_queue(cpu).len(),
    ensures
        ({
            let q = v.run_queue(cpu);
            let w = rotated_times(v, cpu, n);
            &&& w.live(cpu)
            &&& w.run_queue(cpu) == q.subrange(n as int, q.len() as int) + q.subrange(
                0,
                n as int,
            )
            &&& n < q.len() ==> w.queue_head(cpu) == Some(q[n as int])
            &&& n == q.len() ==> w.run_queue(cpu) == q
        }),
    decreases n,
{
    let q = v.run_queue(cpu);
    let len = q.len() as int;
    if n == 0 {
        assert(q.subrange(0, len) + q.subrange(0, 0) =~= q);
    } else {
        every_thread_gets_its_turn(v, cpu, (n - 1) as nat);
        let u = rotated_times(v, cpu, (n - 1) as nat);
        rotating_moves_the_head(u, cpu);
        let w = rotated_times(v, cpu, n);
        let k = n as int;
        assert(u.run_queue(cpu).drop_first().push(u.run_queue(cpu)[0]) =~= q.subrange(k, len)
            + q.subrange(0, k));
    }
    let w = rotated_times(v, cpu, n);
    if n < q.len() {
        assert(w.run_queue(cpu)[0] == q[n as int]);
    } else {
        assert(q.subrange(len, len) + q.subrange(0, len) =~= q);
    }
}

} // verus!

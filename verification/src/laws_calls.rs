//! Messages, scheduling and system calls keep every invariant: the kernel is
//! consistent between any two of them.

use vstd::prelude::*;

use crate::body::{Body, Endpoint, Message, NodeBody, Process, Rights, Thread, ThreadState};
use crate::edge::{Dir, WaitingAttr};
use crate::graph::{Graph, GraphError, Ref};
use crate::id::{EdgeId, EdgeKind, NodeId, NodeKind};
use crate::ipc::{Received, Step};
use crate::proc::SpawnError;
use crate::sched::Decision;
use crate::view::{GraphView, ListKey};

verus! {

// ---------------------------------------------------------------- messages ---

/// Parking a message on a thread keeps every invariant.
pub proof fn parking_keeps_invariants(v: GraphView, t: NodeId, m: Message)
    requires
        v.wf(),
        v.inv(),
        v.is_thread(t),
    ensures
        v.with_message(t, m).wf(),
        v.with_message(t, m).inv(),
{
    assert(v.nodes.contains_key(t));
    assert(v.node_ok(t));
    crate::laws_run::unlisted_body_change_keeps_invariants(
        v,
        t,
        Body::Thread(Thread { msg: m, ..v.thread(t) }),
    );
}

/// A capability that the graph did not refuse keeps every invariant.
proof fn unrefused_grant_keeps_invariants(g0: Graph, p: NodeId, target: NodeId, rights: Rights)
    requires
        g0.wf(),
        g0@.inv(),
        p.kind() == Some(NodeKind::Process),
        g0.grant_refusal(p, target) is None,
    ensures
        g0@.granted(p, target, rights, g0@.process(p).free_slot()->Some_0, g0.next_edge()).wf(),
        g0@.granted(p, target, rights, g0@.process(p).free_slot()->Some_0, g0.next_edge()).inv(),
{
    crate::caps::no_free_slot_means_full(g0@.process(p));
    crate::laws_ipc::next_edge_is_unused(g0);
    crate::laws_make::granting_keeps_invariants(
        g0@,
        p,
        target,
        rights,
        g0@.process(p).free_slot()->Some_0,
        g0.next_edge(),
    );
}

/// Delivering a message keeps every invariant, whether or not it arrives.
pub proof fn delivering_keeps_invariants(
    g0: Graph,
    v1: GraphView,
    from: NodeId,
    to: NodeId,
    r: Result<u32, i64>,
)
    requires
        g0.wf(),
        g0@.inv(),
        from.kind() == Some(NodeKind::Thread),
        to.kind() == Some(NodeKind::Thread),
        crate::ipc::delivered(g0, v1, from, to, r),
    ensures
        v1.inv(),
        forall|n: NodeId| #[trigger] v1.live(n) == g0@.live(n),
{
    let v = g0@;
    let msg = v.thread(from).msg;
    let p = v.thread(to).owner_proc;
    if r is Ok {
        assert(v.nodes.contains_key(to));
        if msg.carries() {
            let slot = v.process(p).free_slot()->Some_0;
            unrefused_grant_keeps_invariants(g0, p, msg.cap_target, Rights(msg.cap_rights));
            let u = v.granted(p, msg.cap_target, Rights(msg.cap_rights), slot, g0.next_edge());
            assert(u.live(to));
            parking_keeps_invariants(u, to, Message { cap_slot: slot, ..msg });
        } else {
            parking_keeps_invariants(v, to, Message { cap_slot: 0, ..msg });
        }
    }
}

/// Waking a thread keeps every invariant, whether or not it could be woken.
proof fn trying_to_wake_keeps_invariants(g0: Graph, v1: GraphView, cpu: NodeId, t: NodeId, ok: bool)
    requires
        g0.wf(),
        g0@.inv(),
        cpu.kind() == Some(NodeKind::Cpu),
        t.kind() == Some(NodeKind::Thread),
        crate::ipc::woken(g0, v1, cpu, t, ok),
    ensures
        v1.inv(),
{
    let v = g0@;
    if g0.link_refusal(cpu, EdgeKind::Ready, t) is None {
        let w = v.wait_ended(t);
        assert(v.nodes.contains_key(t));
        assert(v.node_ok(t) && v.body_ok(t));
        if w.cannot_queue(t) {
            let key: ListKey = (t, Dir::Out, EdgeKind::Waiting);
            assert(v.lists.contains_key(key));
            if v.lists[key].len() > 0 {
                assert(v.edges.contains_key(v.lists[key][0]));
                crate::steps::unlink_keeps_nodes(v, v.lists[key][0]);
                assert(v.thread(t).state == ThreadState::Blocked);
            }
            crate::laws_run::unlisted_body_change_keeps_invariants(
                v,
                t,
                Body::Thread(Thread { wait_aborted: 0, ..v.thread(t) }),
            );
            assert(w == v.with_body(t, Body::Thread(Thread { wait_aborted: 0, ..v.thread(t) })));
        } else {
            let e = choose|e: EdgeId| #[trigger]
                w.descheduled(t).unused(e) && v1 == w.made_ready(cpu, t, e);
            crate::laws_run::waking_keeps_invariants(v, cpu, t, e);
        }
    }
}

/// Handing a message over keeps every invariant.
proof fn handing_over_keeps_invariants(
    g0: Graph,
    v1: GraphView,
    cpu0: NodeId,
    from: NodeId,
    to: NodeId,
    other: NodeId,
    r: Result<u32, i64>,
)
    requires
        g0.wf(),
        g0@.inv(),
        from.kind() == Some(NodeKind::Thread),
        to.kind() == Some(NodeKind::Thread),
        other.kind() == Some(NodeKind::Thread),
        crate::ipc::handed_over(g0, v1, cpu0, from, to, other, r),
    ensures
        v1.inv(),
{
    let (ga, rd, ok) = choose|ga: Graph, rd: Result<u32, i64>, ok: bool| #[trigger]
        crate::ipc::handover_steps(g0, ga, v1, cpu0, from, to, other, rd, ok, r);
    delivering_keeps_invariants(g0, ga@, from, to, rd);
    if rd is Ok && ga@.is_cpu(cpu0) {
        trying_to_wake_keeps_invariants(ga, v1, cpu0, other, ok);
    }
}

/// Waiting on an endpoint keeps every invariant.
proof fn waiting_keeps_invariants(
    g0: Graph,
    v1: GraphView,
    t: NodeId,
    on: NodeId,
    attr: WaitingAttr,
    ok: bool,
)
    requires
        g0.wf(),
        g0@.inv(),
        t.kind() == Some(NodeKind::Thread),
        crate::ipc::waits(g0, v1, t, on, attr, ok),
    ensures
        v1.inv(),
{
    if ok {
        let v = g0@;
        let e = choose|e: EdgeId| #[trigger]
            v.unlink_first(t, Dir::In, EdgeKind::Ready).unlink_first(
                t,
                Dir::Out,
                EdgeKind::Waiting,
            ).unused(e) && v1 == v.made_blocked(t, on, attr, e);
        crate::laws_run::blocking_keeps_invariants(v, t, on, attr, e);
    }
}

/// Whoever waits on an endpoint is a thread.
pub proof fn waiters_are_threads(v: GraphView, on: NodeId, role: crate::edge::WaitRole, t: NodeId)
    requires
        v.wf(),
        v.live(on),
        v.is_waiter(on, role, t),
    ensures
        t.kind() == Some(NodeKind::Thread),
{
    let i = choose|i: int| #[trigger]
        v.first_waiting(on, role, i) && t == v.edges[v.list_or_none(
            on,
            Dir::In,
            EdgeKind::Waiting,
        )[i]].src;
    let key: ListKey = (on, Dir::In, EdgeKind::Waiting);
    assert(v.nodes.contains_key(on));
    assert(v.lists.contains_key(key));
    assert(v.list_ok(key));
    assert(v.edges.contains_key(v.lists[key][i]));
    assert(v.edge_ok(v.lists[key][i]));
}

/// Sending keeps every invariant, whether the message is taken at once, the
/// sender waits, or neither can be.
pub proof fn sending_keeps_invariants(
    g0: Graph,
    v1: GraphView,
    cpu0: NodeId,
    me: NodeId,
    ep: NodeId,
    words: [u64; 8],
    cap_target: NodeId,
    cap_rights: Rights,
    r: Step<i64>,
)
    requires
        g0.wf(),
        g0@.inv(),
        crate::ipc::sent(g0, v1, cpu0, me, ep, words, cap_target, cap_rights, r),
    ensures
        v1.inv(),
{
    if ep.kind() == Some(NodeKind::Endpoint) && g0@.live(ep) && g0@.is_thread(me) {
        let (ga, m) = choose|ga: Graph, m: Message| #[trigger]
            crate::ipc::parked(g0, ga, me, m) && crate::ipc::is_parcel(
                m,
                words,
                cap_target,
                cap_rights,
            ) && crate::ipc::message_offered(ga, v1, cpu0, me, ep, r);
        parking_keeps_invariants(g0@, me, m);
        assert(g0@.nodes.contains_key(ep) && g0@.nodes.contains_key(me));
        let role = crate::edge::WaitRole::Recv;
        let attr = WaitingAttr { role: crate::edge::WaitRole::Send, badge: 0 };
        if exists|to: NodeId, rh: Result<u32, i64>|
            ga@.is_waiter(ep, role, to) && crate::ipc::handed_over(ga, v1, cpu0, me, to, to, rh) {
            let (to, rh) = choose|to: NodeId, rh: Result<u32, i64>|
                ga@.is_waiter(ep, role, to) && crate::ipc::handed_over(
                    ga,
                    v1,
                    cpu0,
                    me,
                    to,
                    to,
                    rh,
                );
            waiters_are_threads(ga@, ep, role, to);
            handing_over_keeps_invariants(ga, v1, cpu0, me, to, to, rh);
        } else {
            let ok = choose|ok: bool| #[trigger] crate::ipc::waits(ga, v1, me, ep, attr, ok);
            waiting_keeps_invariants(ga, v1, me, ep, attr, ok);
        }
    }
}

/// Receiving keeps every invariant, whether a message is there, the receiver
/// waits, or neither can be.
pub proof fn receiving_keeps_invariants(
    g0: Graph,
    v1: GraphView,
    cpu0: NodeId,
    me: NodeId,
    ep: NodeId,
    r: Step<Received>,
)
    requires
        g0.wf(),
        g0@.inv(),
        crate::ipc::received(g0, v1, cpu0, me, ep, r),
    ensures
        v1.inv(),
{
    if ep.kind() == Some(NodeKind::Endpoint) && g0@.live(ep) && g0@.is_thread(me) {
        let role = crate::edge::WaitRole::Send;
        let attr = WaitingAttr { role: crate::edge::WaitRole::Recv, badge: 0 };
        if exists|from: NodeId, rh: Result<u32, i64>|
            g0@.is_waiter(ep, role, from) && crate::ipc::handed_over(
                g0,
                v1,
                cpu0,
                from,
                me,
                from,
                rh,
            ) {
            let (from, rh) = choose|from: NodeId, rh: Result<u32, i64>|
                g0@.is_waiter(ep, role, from) && crate::ipc::handed_over(
                    g0,
                    v1,
                    cpu0,
                    from,
                    me,
                    from,
                    rh,
                );
            waiters_are_threads(g0@, ep, role, from);
            handing_over_keeps_invariants(g0, v1, cpu0, from, me, from, rh);
        } else {
            let ok = choose|ok: bool| #[trigger] crate::ipc::waits(g0, v1, me, ep, attr, ok);
            waiting_keeps_invariants(g0, v1, me, ep, attr, ok);
        }
    }
}

/// Coming back from a wait keeps every invariant.
pub proof fn finishing_a_wait_keeps_invariants(v: GraphView, t: NodeId)
    requires
        v.wf(),
        v.inv(),
        t.kind() == Some(NodeKind::Thread),
    ensures
        crate::ipc::abort_noted(v, t).wf(),
        crate::ipc::abort_noted(v, t).inv(),
{
    if v.live(t) {
        assert(v.nodes.contains_key(t));
        assert(v.node_ok(t));
        crate::laws_run::unlisted_body_change_keeps_invariants(
            v,
            t,
            Body::Thread(Thread { wait_aborted: 0, ..v.thread(t) }),
        );
    }
}

// -------------------------------------------------------------- scheduling ---

/// Queueing a thread that may be refused keeps every invariant.
pub proof fn trying_to_queue_keeps_invariants(g0: Graph, v1: GraphView, cpu: NodeId, t: NodeId)
    requires
        g0@.wf(),
        g0@.inv(),
        cpu.kind() == Some(NodeKind::Cpu),
        t.kind() == Some(NodeKind::Thread),
        crate::sched::queued(g0, v1, cpu, t),
    ensures
        v1.wf(),
        v1.inv(),
        forall|n: NodeId| #[trigger] v1.nodes.contains_key(n) == g0@.nodes.contains_key(n),
        forall|n: NodeId| #[trigger]
            v1.nodes.contains_key(n) && n != t ==> v1.nodes[n].body == g0@.nodes[n].body,
{
    let v = g0@;
    if g0.ready_refusal(cpu, t) is None {
        let e = choose|e: EdgeId| #[trigger]
            v.descheduled(t).unused(e) && v1 == v.made_ready(cpu, t, e);
        crate::laws_run::queueing_keeps_invariants(v, cpu, t, e);
        assert(v.nodes.contains_key(t));
        assert(v.node_ok(t));
        let ws: ListKey = (t, Dir::Out, EdgeKind::Waiting);
        assert(v.lists.contains_key(ws));
        assert(v.list_ok(ws));
        if v.lists[ws].len() > 0 {
            assert(v.edges.contains_key(v.lists[ws][0]));
            assert(v.edge_ok(v.lists[ws][0]));
        }
        let w = v.unlink_first(t, Dir::Out, EdgeKind::Waiting);
        let rs = w.list(t, Dir::In, EdgeKind::Ready);
        assert(rs == v.list(t, Dir::In, EdgeKind::Ready));
        assert(v.lists.contains_key((t, Dir::In, EdgeKind::Ready)));
        if rs.len() > 0 {
            assert(v.edges.contains_key(rs[0]));
            assert(v.edge_ok(rs[0]));
            assert(w.edges[rs[0]] == v.edges[rs[0]]);
        }
    }
}

/// Taking a turn keeps every invariant: the thread that ran is queued again if
/// it still can run, and the one that runs next is on no queue.
pub proof fn scheduling_keeps_invariants(
    g0: Graph,
    v1: GraphView,
    cpu: NodeId,
    kernel_pml4: u64,
    r: Option<Decision>,
)
    requires
        g0.wf(),
        g0@.inv(),
        crate::sched::scheduled(g0, v1, cpu, kernel_pml4, r),
    ensures
        v1.wf(),
        v1.inv(),
{
    let v = g0@;
    if v.is_cpu(cpu) && v.queue_head(cpu) is Some {
        let next = v.queue_head(cpu)->Some_0;
        let current = v.cpu(cpu).current;
        let turned = v.rotate(cpu, Dir::Out, EdgeKind::Ready);
        assert(v.nodes.contains_key(cpu));
        let key: ListKey = (cpu, Dir::Out, EdgeKind::Ready);
        assert(v.lists.contains_key(key));
        assert(v.list_ok(key));
        let e = v.lists[key][0];
        assert(v.edges.contains_key(e));
        assert(v.edge_ok(e));
        crate::laws_run::rotating_keeps_invariants(v, cpu);
        assert(v.nodes.contains_key(next));
        assert(v.node_ok(next) && v.body_ok(next));
        assert(v.list(next, Dir::In, EdgeKind::Ready).contains(e));
        assert(v.thread(next).state == ThreadState::Ready);
        if next != current {
            let (g1, v2) = choose|g1: Graph, v2: GraphView|
                g1@ == turned && #[trigger] crate::sched::put_back(g1, v2, cpu, current) && v1
                    == v2.taken_to_run(next).with_current(cpu, next);
            assert(turned.nodes == v.nodes);
            if g1@.is_thread(current) && g1@.thread(current).state == ThreadState::Running {
                trying_to_queue_keeps_invariants(g1, v2, cpu, current);
            }
            assert(v2.nodes.contains_key(next) && v2.nodes.contains_key(cpu));
            assert(v2.body_ok(next));
            crate::laws_run::running_keeps_invariants(v2, cpu, next);
        }
    }
}

/// Giving a node up and clearing the cpu keeps every invariant.
pub proof fn giving_up_keeps_invariants(v: GraphView, cpu0: NodeId, node: NodeId)
    requires
        v.wf(),
        v.inv(),
    ensures
        crate::sched::given_up(v, cpu0, node).wf(),
        crate::sched::given_up(v, cpu0, node).inv(),
{
    crate::laws_reap::deleting_keeps_invariants(v, node);
    let w = v.deleted(node);
    if w.is_cpu(cpu0) {
        assert(w.nodes.contains_key(cpu0));
        assert(w.node_ok(cpu0));
        crate::laws_run::unlisted_body_change_keeps_invariants(
            w,
            cpu0,
            Body::Cpu(crate::body::Cpu { current: NodeId(0), ..w.cpu(cpu0) }),
        );
    }
}

/// Recording how a process ends keeps every invariant.
pub proof fn recording_the_end_keeps_invariants(v: GraphView, t: NodeId, code: i32)
    requires
        v.wf(),
        v.inv(),
    ensures
        v.ending(t, code).wf(),
        v.ending(t, code).inv(),
{
    if let Some(p) = v.process_of(t) {
        assert(v.nodes.contains_key(p));
        assert(v.node_ok(p));
        crate::laws_run::unlisted_body_change_keeps_invariants(
            v,
            p,
            Body::Process(Process { exit_code: code, ..v.process(p) }),
        );
    }
}

// ------------------------------------------------------------ system calls ---

/// A capability asked for keeps every invariant, whether or not it is given.
pub proof fn asking_for_a_capability_keeps_invariants(
    g0: Graph,
    g1: Graph,
    p: NodeId,
    target: NodeId,
    rights: Rights,
    r: Result<u32, GraphError>,
)
    requires
        g0.wf(),
        g0@.inv(),
        p.kind() == Some(NodeKind::Process),
        g1.capability_granted(g0, p, target, rights, r),
    ensures
        g1@.inv(),
{
    if g0.grant_refusal(p, target) is None {
        unrefused_grant_keeps_invariants(g0, p, target, rights);
    }
}

/// Looking a name up keeps every invariant.
pub proof fn looking_up_keeps_invariants(
    g0: Graph,
    g1: Graph,
    t: NodeId,
    name: Option<Seq<u8>>,
    r: i64,
)
    requires
        g0.wf(),
        g0@.inv(),
        crate::syscall::looked_up(g0, g1, t, name, r),
    ensures
        g1@.inv(),
{
    if g1 != g0 {
        let v = g0@;
        let text = vstd::utf8::decode_utf8(name->Some_0);
        let p = v.process_of(t)->Some_0;
        let (i, rg) = choose|i: int, rg: Result<u32, GraphError>|
            #![trigger v.first_spelled(text, i), crate::syscall::name_granted(g0, g1, p, i, rg)]
            v.first_spelled(text, i) && crate::syscall::name_granted(g0, g1, p, i, rg);
        let found = v.edges[v.list(v.root_id, Dir::Out, EdgeKind::Named)[i]].dst;
        asking_for_a_capability_keeps_invariants(
            g0,
            g1,
            p,
            found,
            crate::syscall::lookup_rights(found.kind()),
            rg,
        );
    }
}

/// A node asked for keeps every invariant, whether or not it is made.
pub proof fn trying_to_create_keeps_invariants<B: NodeBody>(
    g0: Graph,
    g1: Graph,
    owner: NodeId,
    body: B,
    r: Result<Ref<B>, GraphError>,
)
    requires
        g0.wf(),
        g1.wf(),
        g0@.inv(),
        body.erase().bounded(),
        body.erase().fresh(),
        crate::id::spec_compatible(EdgeKind::Owns, owner.kind()->Some_0, B::spec_kind()),
        g1.created(g0, owner, body, r),
    ensures
        g1@.inv(),
{
    if g0.create_refusal(owner, B::spec_kind()) is None {
        let id = g0.next_node(B::spec_kind());
        let e = g0.next_edge();
        body.erase_kind();
        crate::laws_ipc::next_edge_is_unused(g0);
        assert(g1@.nodes.contains_key(id));
        assert(g1.spec_live(id));
        crate::laws_make::creating_keeps_invariants(
            g0@,
            owner,
            id,
            body.erase(),
            e.idx(),
            e.generation(),
        );
    }
}

/// Making an endpoint keeps every invariant.
pub proof fn making_an_endpoint_keeps_invariants(g0: Graph, g1: Graph, t: NodeId, r: i64)
    requires
        g0.wf(),
        g0@.inv(),
        crate::syscall_objects::endpoint_made(g0, g1, t, r),
    ensures
        g1@.inv(),
{
    if let Some(p) = g0@.process_of(t) {
        let (ga, re, rg) = choose|
            ga: Graph,
            re: Result<Ref<Endpoint>, GraphError>,
            rg: Result<u32, GraphError>,
        | #[trigger]
            crate::syscall_objects::endpoint_steps(g0, ga, g1, p, re, rg, r);
        trying_to_create_keeps_invariants(g0, ga, p, Endpoint::spec_zero(), re);
        if let Ok(ep) = re {
            asking_for_a_capability_keeps_invariants(ga, g1, p, ep.id(), Rights(255), rg);
        }
    }
}

/// Starting a process keeps every invariant.
pub proof fn starting_keeps_invariants(g0: Graph, g1: Graph, cpu0: NodeId, child: NodeId, r: i64)
    requires
        g0.wf(),
        g0@.inv(),
        crate::syscall_objects::started(g0, g1, cpu0, child, r),
    ensures
        g1@.inv(),
{
    if g1 != g0 {
        let v = g0@;
        let (i, p, rq) = choose|i: int, p: Ref<Process>, rq: Result<Ref<Process>, SpawnError>|
            #![trigger crate::spawn::first_owned_thread(v, child, i), crate::syscall_objects::queued_first(g0, g1, cpu0, child, i, p, rq)]
            crate::spawn::first_owned_thread(v, child, i) && crate::syscall_objects::queued_first(
                g0,
                g1,
                cpu0,
                child,
                i,
                p,
                rq,
            );
        let t = v.edges[v.list(child, Dir::Out, EdgeKind::Owns)[i]].dst;
        trying_to_queue_keeps_invariants(g0, g1@, cpu0, t);
    }
}

} // verus!

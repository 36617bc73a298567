//! A message from end to end: what the sender named is what the receiver gets,
//! with the rights the sender has on it.

use vstd::prelude::*;

use crate::abi::{E_BADHANDLE, E_FAULT, E_PERM};
use crate::body::{Message, Rights};
use crate::edge::{Dir, EdgeAttr, HoldsAttr, Prot, WaitRole, WaitingAttr};
use crate::graph::Graph;
use crate::id::{EdgeId, EdgeKind, NodeId, NodeKind};
use crate::ipc::{Received, Step};
use crate::view::{GraphView, ListKey};

verus! {

// ------------------------------------------------------------- capabilities ---

impl GraphView {
    /// Every capability is still there.
    pub open spec fn capabilities_kept(self, o: GraphView) -> bool {
        forall|e: u32| #[trigger]
            o.edges.contains_key(e) && o.edges[e].kind == EdgeKind::Holds ==> self.edges.contains_key(
                e,
            ) && self.edges[e] == o.edges[e]
    }

    /// The thread waits on the object, in the role.
    pub open spec fn waits_on(self, t: NodeId, on: NodeId, role: WaitRole) -> bool {
        exists|e: u32| #[trigger]
            self.edges.contains_key(e) && self.edges[e].kind == EdgeKind::Waiting
                && self.edges[e].src == t && self.edges[e].dst == on && WaitingAttr::spec_decode(
                self.edges[e].data,
            ).role == role
    }
}

/// What is held stays held where every capability is kept.
pub proof fn held_is_kept(v: GraphView, w: GraphView, p: NodeId, slot: u32, d: NodeId, rights: u32)
    requires
        w.capabilities_kept(v),
        v.holds_in(p, slot, d, rights),
    ensures
        w.holds_in(p, slot, d, rights),
{
    let e = choose|e: u32| #[trigger] v.capability(e, p, slot, d, rights);
    assert(v.edges.contains_key(e));
    assert(w.capability(e, p, slot, d, rights));
}

/// A capability granted is held, and those that were are too.
pub proof fn granted_is_held(
    v: GraphView,
    p: NodeId,
    d: NodeId,
    rights: Rights,
    slot: u32,
    e: EdgeId,
)
    requires
        !v.edges.contains_key(e.idx()),
    ensures
        v.granted(p, d, rights, slot, e).holds_in(p, slot, d, rights.0),
        v.granted(p, d, rights, slot, e).capabilities_kept(v),
{
    let w = v.granted(p, d, rights, slot, e);
    (HoldsAttr { rights, slot }).round_trip();
    assert(w.capability(e.idx(), p, slot, d, rights.0));
}

/// Taking a thread off a queue takes no capability.
proof fn unqueueing_keeps_capabilities(v: GraphView, t: NodeId, dir: Dir, kind: EdgeKind)
    requires
        v.wf(),
        v.live(t),
        kind == EdgeKind::Ready || kind == EdgeKind::Waiting,
    ensures
        v.unlink_first(t, dir, kind).wf(),
        v.unlink_first(t, dir, kind).live(t),
        v.unlink_first(t, dir, kind).capabilities_kept(v),
{
    let key: ListKey = (t, dir, kind);
    assert(v.nodes.contains_key(t));
    assert(v.lists.contains_key(key));
    assert(v.list_ok(key));
    crate::steps::unlink_first_keeps_nodes(v, t, dir, kind);
    if v.lists[key].len() > 0 {
        let e = v.lists[key][0];
        assert(v.edges.contains_key(e));
        crate::steps::unlink_keeps_nodes(v, e);
        crate::laws::unlink_wf(v, e);
    }
}

/// Waking a thread takes no capability from anyone, and leaves its message.
pub proof fn waking_keeps_capabilities(
    g0: Graph,
    v1: GraphView,
    cpu: NodeId,
    t: NodeId,
    ok: bool,
)
    requires
        g0.wf(),
        t.kind() == Some(NodeKind::Thread),
        crate::ipc::woken(g0, v1, cpu, t, ok),
    ensures
        v1.capabilities_kept(g0@),
        forall|x: NodeId|
            g0@.live(x) && x.kind() == Some(NodeKind::Thread) ==> v1.live(x) && (#[trigger] v1.thread(
                x,
            )).msg == g0@.thread(x).msg && v1.thread(x).owner_proc == g0@.thread(x).owner_proc,
{
    let v = g0@;
    if g0.link_refusal(cpu, EdgeKind::Ready, t) is None {
        let w = v.wait_ended(t);
        let u = v.unlink_first(t, Dir::Out, EdgeKind::Waiting);
        assert(v.nodes.contains_key(t));
        assert(v.node_ok(t));
        unqueueing_keeps_capabilities(v, t, Dir::Out, EdgeKind::Waiting);
        unqueueing_keeps_messages(v, t, Dir::Out, EdgeKind::Waiting);
        assert(u.nodes.contains_key(t));
        assert(u.node_ok(t));
        body_change_keeps_wf(u, t, w);
        assert(w.capabilities_kept(v));
        if !w.cannot_queue(t) {
            let e = choose|e: EdgeId| #[trigger]
                w.descheduled(t).unused(e) && v1 == w.made_ready(cpu, t, e);
            let w1 = w.unlink_first(t, Dir::Out, EdgeKind::Waiting);
            let w2 = w1.unlink_first(t, Dir::In, EdgeKind::Ready);
            unqueueing_keeps_capabilities(w, t, Dir::Out, EdgeKind::Waiting);
            unqueueing_keeps_messages(w, t, Dir::Out, EdgeKind::Waiting);
            unqueueing_keeps_capabilities(w1, t, Dir::In, EdgeKind::Ready);
            unqueueing_keeps_messages(w1, t, Dir::In, EdgeKind::Ready);
            assert forall|x: NodeId|
                v.live(x) && x.kind() == Some(NodeKind::Thread) implies v1.live(x) && (
            #[trigger] v1.thread(x)).msg == v.thread(x).msg && v1.thread(x).owner_proc == v.thread(
                x,
            ).owner_proc by {
                assert(u.thread(x).msg == v.thread(x).msg);
                assert(w.thread(x).msg == v.thread(x).msg);
                assert(w1.thread(x).msg == v.thread(x).msg);
                assert(w2.thread(x).msg == v.thread(x).msg);
            }
        } else {
            assert forall|x: NodeId|
                v.live(x) && x.kind() == Some(NodeKind::Thread) implies v1.live(x) && (
            #[trigger] v1.thread(x)).msg == v.thread(x).msg && v1.thread(x).owner_proc == v.thread(
                x,
            ).owner_proc by {
                assert(u.thread(x).msg == v.thread(x).msg);
            }
        }
    }
}

/// The body of a thread is replaced by another's, and all else stands.
proof fn body_change_keeps_wf(u: GraphView, t: NodeId, w: GraphView)
    requires
        u.wf(),
        u.live(t),
        t.kind() == Some(NodeKind::Thread),
        w == u.with_body(t, w.nodes[t].body),
        w.nodes[t].body is Thread,
    ensures
        w.wf(),
        w.live(t),
        w.capabilities_kept(u),
{
    assert forall|n: NodeId| #[trigger] w.nodes.contains_key(n) implies w.node_ok(n) by {
        assert(u.nodes.contains_key(n));
        assert(u.node_ok(n));
    }
    assert forall|e: u32| #[trigger] w.edges.contains_key(e) implies w.edge_ok(e) by {
        assert(u.edges.contains_key(e));
        assert(u.edge_ok(e));
    }
    assert forall|key: ListKey| #[trigger] w.lists.contains_key(key) implies w.list_ok(key) by {
        assert(u.lists.contains_key(key));
        assert(u.list_ok(key));
    }
    assert forall|key: ListKey| #[trigger]
        w.lists.contains_key(key) <==> w.nodes.contains_key(key.0) by {
        assert(u.lists.contains_key(key) <==> u.nodes.contains_key(key.0));
    }
}

/// Taking a thread off a queue leaves every message where it is.
proof fn unqueueing_keeps_messages(v: GraphView, t: NodeId, dir: Dir, kind: EdgeKind)
    requires
        v.wf(),
        v.live(t),
        kind == EdgeKind::Ready || kind == EdgeKind::Waiting,
    ensures
        forall|x: NodeId|
            v.live(x) && x.kind() == Some(NodeKind::Thread) ==> v.unlink_first(t, dir, kind).live(x)
                && (#[trigger] v.unlink_first(t, dir, kind).thread(x)).msg == v.thread(x).msg
                && v.unlink_first(t, dir, kind).thread(x).owner_proc == v.thread(x).owner_proc,
{
    let key: ListKey = (t, dir, kind);
    assert(v.nodes.contains_key(t));
    assert(v.lists.contains_key(key));
    assert(v.list_ok(key));
    if v.lists[key].len() > 0 {
        let e = v.lists[key][0];
        assert(v.edges.contains_key(e));
        assert(v.edge_ok(e));
        assert(v.node_ok(v.edges[e].src));
    }
}

// ---------------------------------------------------------------- handovers ---

/// A message handed over arrives word for word, and the capability it carries
/// is held by the receiver's process in the slot it is told, with the rights
/// that were sent. Nobody loses one.
pub proof fn handing_over_delivers(
    g0: Graph,
    v1: GraphView,
    cpu0: NodeId,
    from: NodeId,
    to: NodeId,
    other: NodeId,
    slot: u32,
)
    requires
        g0.wf(),
        from.kind() == Some(NodeKind::Thread),
        to.kind() == Some(NodeKind::Thread),
        other.kind() == Some(NodeKind::Thread),
        crate::ipc::handed_over(g0, v1, cpu0, from, to, other, Ok(slot)),
    ensures
        v1.capabilities_kept(g0@),
        v1.live(to),
        v1.thread(to).msg.words == g0@.thread(from).msg.words,
        v1.thread(to).msg.cap_slot == slot,
        ({
            let m = g0@.thread(from).msg;
            if m.has_cap != 0 && !m.cap_target.is_null() {
                slot != 0 && v1.holds_in(
                    g0@.thread(to).owner_proc,
                    slot,
                    m.cap_target,
                    m.cap_rights,
                )
            } else {
                slot == 0
            }
        }),
{
    let r = Ok::<u32, i64>(slot);
    let (ga, rd, ok) = choose|ga: Graph, rd: Result<u32, i64>, ok: bool| #[trigger]
        crate::ipc::handover_steps(g0, ga, v1, cpu0, from, to, other, rd, ok, r);
    let v = g0@;
    let m = v.thread(from).msg;
    let p = v.thread(to).owner_proc;
    assert(rd == r);
    assert(v.nodes.contains_key(to) && v.nodes.contains_key(from));
    assert(v.node_ok(to) && v.node_ok(from));
    waking_keeps_capabilities(ga, v1, cpu0, other, ok);
    if m.has_cap != 0 && !m.cap_target.is_null() {
        crate::laws_ipc::next_edge_is_unused(g0);
        granted_is_held(v, p, m.cap_target, Rights(m.cap_rights), slot, g0.next_edge());
        crate::caps::no_free_slot_means_full(v.process(p));
        let u = v.granted(p, m.cap_target, Rights(m.cap_rights), slot, g0.next_edge());
        assert(ga@.edges == u.edges);
        assert(u.nodes[to] == v.nodes[to]);
        let e = choose|e: u32| #[trigger]
            u.capability(e, p, slot, m.cap_target, m.cap_rights);
        assert(ga@.capability(e, p, slot, m.cap_target, m.cap_rights));
        assert(ga@.capabilities_kept(v)) by {
            assert forall|e: u32| #[trigger]
                v.edges.contains_key(e) && v.edges[e].kind == EdgeKind::Holds implies ga@.edges.contains_key(
                e,
            ) && ga@.edges[e] == v.edges[e] by {
                assert(u.edges.contains_key(e));
            }
        }
        held_is_kept(ga@, v1, p, slot, m.cap_target, m.cap_rights);
    } else {
        assert(ga@.edges == v.edges);
    }
    assert(v1.thread(to).msg == ga@.thread(to).msg);
    assert(v1.capabilities_kept(v)) by {
        assert forall|e: u32| #[trigger]
            v.edges.contains_key(e) && v.edges[e].kind == EdgeKind::Holds implies v1.edges.contains_key(
            e,
        ) && v1.edges[e] == v.edges[e] by {
            assert(ga@.edges.contains_key(e) && ga@.edges[e] == v.edges[e]);
        }
    }
}

/// The waiter that is found waits there, in that role.
pub proof fn waiters_wait(v: GraphView, on: NodeId, role: WaitRole, t: NodeId)
    requires
        v.wf(),
        v.live(on),
        v.is_waiter(on, role, t),
    ensures
        t.kind() == Some(NodeKind::Thread),
        v.waits_on(t, on, role),
{
    crate::laws_calls::waiters_are_threads(v, on, role, t);
    let i = choose|i: int| #[trigger]
        v.first_waiting(on, role, i) && t == v.edges[v.list_or_none(
            on,
            Dir::In,
            EdgeKind::Waiting,
        )[i]].src;
    let key: ListKey = (on, Dir::In, EdgeKind::Waiting);
    assert(v.nodes.contains_key(on));
    assert(v.lists.contains_key(key));
    assert(v.list_ok(key));
    assert(v.edges.contains_key(v.lists[key][i]));
}

// -------------------------------------------------------------------- sends ---

/// What a send says no to, and what it goes by: the send right on the
/// endpoint, and the grant right too where a capability goes with it.
pub proof fn sending_goes_by_what_is_held(
    g0: Graph,
    g1: Graph,
    cpu0: NodeId,
    t: NodeId,
    p: NodeId,
    ep_arg: u64,
    ep_slot: u32,
    ep: NodeId,
    ep_rights: u32,
    words: Option<[u64; 8]>,
    cap_arg: u64,
    cap_slot: u32,
    r: Step<i64>,
)
    requires
        g0.wf(),
        g0@.inv(),
        g0@.works_for(t, p),
        crate::laws_authority::names_slot(ep_arg, ep_slot),
        crate::laws_authority::names_slot(cap_arg, cap_slot),
        g0@.holds_in(p, ep_slot, ep, ep_rights),
        crate::syscall_objects::send_answered(g0, g1, cpu0, t, ep_arg, words, cap_arg, r),
    ensures
        words is None ==> r == Step::Done(E_FAULT) && g1 == g0,
        words is Some && ep_rights & 8 == 0 ==> r == Step::Done(E_PERM) && g1 == g0,
        words is Some && ep_rights & 8 != 0 && g0@.dying(ep) ==> r == Step::Done(E_BADHANDLE) && g1
            == g0,
        words is Some && ep_rights & 8 != 0 && !g0@.dying(ep) && cap_arg != 0 && ep_rights & 32 == 0
            ==> r == Step::Done(E_PERM) && g1 == g0,
        words is Some && ep_rights & 8 != 0 && !g0@.dying(ep) && cap_arg != 0 && ep_rights & 32 != 0
            && g0@.holds_nothing(p, cap_slot) ==> r == Step::Done(E_BADHANDLE) && g1 == g0,
        words is Some && ep_rights & 8 != 0 && ep.kind() != Some(NodeKind::Endpoint) ==> r
            is Done && g1@ == g0@,
{
    crate::laws_authority::one_bit(ep_rights);
    crate::laws_authority::low_half(ep_arg, ep_slot);
    crate::laws_authority::low_half(cap_arg, cap_slot);
    crate::laws_authority::handle_goes_by_what_is_held(
        g0@,
        t,
        p,
        ep_arg,
        ep_slot,
        ep,
        ep_rights,
        8,
    );
    crate::laws_authority::what_is_held_resolves(g0@, p, ep_slot, ep, ep_rights, 8);
    if g0@.holds_nothing(p, cap_slot) {
        crate::laws_authority::what_is_not_held_does_not_resolve(g0@, p, cap_slot, 0);
    }
}

/// What a send hands on is what the sender's slot names, with the rights it
/// has there.
proof fn parcel_is_what_is_held(
    v: GraphView,
    t: NodeId,
    p: NodeId,
    ep_arg: u64,
    cap_arg: u64,
    cap_slot: u32,
    d: NodeId,
    rights: u32,
)
    requires
        v.wf(),
        v.inv(),
        v.works_for(t, p),
        cap_arg != 0,
        crate::laws_authority::names_slot(cap_arg, cap_slot),
        v.holds_in(p, cap_slot, d, rights),
        crate::syscall_objects::parcel_handles(v, t, ep_arg, cap_arg) is Ok,
    ensures
        crate::syscall_objects::parcel_handles(v, t, ep_arg, cap_arg)->Ok_0.1 == d,
        crate::syscall_objects::parcel_handles(v, t, ep_arg, cap_arg)->Ok_0.2 == Rights(rights),
        v.live(d),
        !d.is_null(),
{
    crate::laws_authority::one_bit(rights);
    crate::laws_authority::low_half(cap_arg, cap_slot);
    crate::laws_authority::what_is_held_resolves(v, p, cap_slot, d, rights, 0);
    assert(v.nodes.contains_key(d));
    assert(v.node_ok(d));
}

/// A capability sent and taken is the receiver's, to the object that the
/// sender's slot names and with the rights that the sender has there. The
/// words arrive as they were given, the receiver was waiting on the endpoint,
/// and the sender keeps what it had.
pub proof fn a_capability_sent_arrives(
    g0: Graph,
    g1: Graph,
    cpu0: NodeId,
    t: NodeId,
    p: NodeId,
    ep_arg: u64,
    ep_slot: u32,
    ep: NodeId,
    ep_rights: u32,
    words: [u64; 8],
    cap_arg: u64,
    cap_slot: u32,
    d: NodeId,
    rights: u32,
)
    requires
        g0.wf(),
        g0@.inv(),
        g0@.works_for(t, p),
        crate::laws_authority::names_slot(ep_arg, ep_slot),
        g0@.holds_in(p, ep_slot, ep, ep_rights),
        cap_arg != 0,
        crate::laws_authority::names_slot(cap_arg, cap_slot),
        g0@.holds_in(p, cap_slot, d, rights),
        crate::syscall_objects::send_answered(
            g0,
            g1,
            cpu0,
            t,
            ep_arg,
            Some(words),
            cap_arg,
            Step::Done(0),
        ),
    ensures
        exists|to: NodeId| #[trigger]
            g0@.waits_on(to, ep, WaitRole::Recv) && g1@.live(to) && g1@.thread(to).msg.words
                == words && g1@.thread(to).msg.cap_slot != 0 && g1@.holds_in(
                g0@.thread(to).owner_proc,
                g1@.thread(to).msg.cap_slot,
                d,
                rights,
            ),
        g1@.holds_in(p, cap_slot, d, rights),
{
    let v = g0@;
    crate::laws_authority::one_bit(ep_rights);
    crate::laws_authority::handle_goes_by_what_is_held(v, t, p, ep_arg, ep_slot, ep, ep_rights, 8);
    parcel_is_what_is_held(v, t, p, ep_arg, cap_arg, cap_slot, d, rights);
    let (ga, m) = sent_is_parked(g0, g1@, cpu0, t, ep, words, d, Rights(rights), Step::Done(0));
    let to = sent_is_taken(ga, g1@, cpu0, t, ep);
    assert(ga@.edges == v.edges);
    assert(ga@.waits_on(to, ep, WaitRole::Recv));
    assert(v.waits_on(to, ep, WaitRole::Recv));
    if to != t {
        assert(ga@.nodes[to] == v.nodes[to]);
    }
    assert(ga@.thread(to).owner_proc == v.thread(to).owner_proc);
    let e = choose|e: u32| #[trigger] v.capability(e, p, cap_slot, d, rights);
    assert(ga@.capability(e, p, cap_slot, d, rights));
    held_is_kept(ga@, g1@, p, cap_slot, d, rights);
}

/// A send parks its message first.
proof fn sent_is_parked(
    g0: Graph,
    v1: GraphView,
    cpu0: NodeId,
    me: NodeId,
    ep: NodeId,
    words: [u64; 8],
    d: NodeId,
    rights: Rights,
    r: Step<i64>,
) -> (x: (Graph, Message))
    requires
        g0.wf(),
        crate::ipc::sent(g0, v1, cpu0, me, ep, words, d, rights, r),
        r == Step::Done(0i64) || r == Step::<i64>::Blocked,
    ensures
        g0@.live(ep),
        ep.kind() == Some(NodeKind::Endpoint),
        x.0.wf(),
        g0@.live(me),
        x.0@ == g0@.with_message(me, x.1),
        x.0@.thread(me).msg == x.1,
        x.0@.live(ep) && x.0@.live(me),
        x.1.words == words,
        x.1.cap_target == d,
        x.1.cap_rights == rights.0,
        d.is_null() ==> x.1.has_cap == 0,
        !d.is_null() ==> x.1.has_cap != 0,
        crate::ipc::message_offered(x.0, v1, cpu0, me, ep, r),
{
    let (ga, m) = choose|ga: Graph, m: Message| #[trigger]
        crate::ipc::parked(g0, ga, me, m) && crate::ipc::is_parcel(m, words, d, rights)
            && crate::ipc::message_offered(ga, v1, cpu0, me, ep, r);
    assert(g0@.nodes.contains_key(ep) && g0@.nodes.contains_key(me));
    assert(g0@.node_ok(me));
    (ga, m)
}

/// A message that was taken was handed to a receiver that waited.
proof fn sent_is_taken(ga: Graph, v1: GraphView, cpu0: NodeId, me: NodeId, ep: NodeId) -> (to: NodeId)
    requires
        ga.wf(),
        ga@.live(ep),
        me.kind() == Some(NodeKind::Thread),
        crate::ipc::message_offered(ga, v1, cpu0, me, ep, Step::Done(0)),
    ensures
        ga@.waits_on(to, ep, WaitRole::Recv),
        to.kind() == Some(NodeKind::Thread),
        v1.capabilities_kept(ga@),
        v1.live(to),
        v1.thread(to).msg.words == ga@.thread(me).msg.words,
        ({
            let m = ga@.thread(me).msg;
            let slot = v1.thread(to).msg.cap_slot;
            if m.has_cap != 0 && !m.cap_target.is_null() {
                slot != 0 && v1.holds_in(
                    ga@.thread(to).owner_proc,
                    slot,
                    m.cap_target,
                    m.cap_rights,
                )
            } else {
                slot == 0
            }
        }),
{
    let (to, rh) = choose|to: NodeId, rh: Result<u32, i64>|
        ga@.is_waiter(ep, WaitRole::Recv, to) && crate::ipc::handed_over(
            ga,
            v1,
            cpu0,
            me,
            to,
            to,
            rh,
        ) && Step::Done(0i64) == Step::Done(
            match rh {
                Ok(_) => 0,
                Err(e) => e,
            },
        );
    waiters_wait(ga@, ep, WaitRole::Recv, to);
    assert(rh is Ok) by {
        let (gb, rd, ok) = choose|gb: Graph, rd: Result<u32, i64>, ok: bool| #[trigger]
            crate::ipc::handover_steps(ga, gb, v1, cpu0, me, to, to, rd, ok, rh);
    }
    handing_over_delivers(ga, v1, cpu0, me, to, to, rh->Ok_0);
    to
}

/// A message without a capability arrives word for word, and brings none.
pub proof fn a_message_sent_arrives(
    g0: Graph,
    g1: Graph,
    cpu0: NodeId,
    t: NodeId,
    p: NodeId,
    ep_arg: u64,
    ep_slot: u32,
    ep: NodeId,
    ep_rights: u32,
    words: [u64; 8],
)
    requires
        g0.wf(),
        g0@.inv(),
        g0@.works_for(t, p),
        crate::laws_authority::names_slot(ep_arg, ep_slot),
        g0@.holds_in(p, ep_slot, ep, ep_rights),
        crate::syscall_objects::send_answered(
            g0,
            g1,
            cpu0,
            t,
            ep_arg,
            Some(words),
            0,
            Step::Done(0),
        ),
    ensures
        exists|to: NodeId| #[trigger]
            g0@.waits_on(to, ep, WaitRole::Recv) && g1@.live(to) && g1@.thread(to).msg.words
                == words && g1@.thread(to).msg.cap_slot == 0,
{
    let v = g0@;
    crate::laws_authority::one_bit(ep_rights);
    crate::laws_authority::handle_goes_by_what_is_held(v, t, p, ep_arg, ep_slot, ep, ep_rights, 8);
    let d = NodeId(0);
    let (ga, m) = sent_is_parked(g0, g1@, cpu0, t, ep, words, d, Rights(0), Step::Done(0));
    reveal(NodeId::spec_generation);
    assert(d.is_null());
    let to = sent_is_taken(ga, g1@, cpu0, t, ep);
    assert(ga@.edges == v.edges);
    assert(ga@.waits_on(to, ep, WaitRole::Recv));
    assert(v.waits_on(to, ep, WaitRole::Recv));
}

/// A sender that has to wait has left on its own node the words it gave, and
/// the object and the rights of the slot it named: what a receiver will take.
/// It waits on the endpoint, to send.
pub proof fn a_waiting_sender_has_its_message(
    g0: Graph,
    g1: Graph,
    cpu0: NodeId,
    t: NodeId,
    p: NodeId,
    ep_arg: u64,
    ep_slot: u32,
    ep: NodeId,
    ep_rights: u32,
    words: [u64; 8],
    cap_arg: u64,
    cap_slot: u32,
    d: NodeId,
    rights: u32,
)
    requires
        g0.wf(),
        g0@.inv(),
        g0@.works_for(t, p),
        crate::laws_authority::names_slot(ep_arg, ep_slot),
        g0@.holds_in(p, ep_slot, ep, ep_rights),
        cap_arg != 0,
        crate::laws_authority::names_slot(cap_arg, cap_slot),
        g0@.holds_in(p, cap_slot, d, rights),
        crate::syscall_objects::send_answered(
            g0,
            g1,
            cpu0,
            t,
            ep_arg,
            Some(words),
            cap_arg,
            Step::Blocked,
        ),
    ensures
        g1@.live(t),
        g1@.thread(t).msg.words == words,
        g1@.thread(t).msg.has_cap != 0,
        g1@.thread(t).msg.cap_target == d,
        g1@.thread(t).msg.cap_rights == rights,
        g1@.thread(t).state == crate::body::ThreadState::Blocked,
        g1@.waits_on(t, ep, WaitRole::Send),
{
    let v = g0@;
    crate::laws_authority::one_bit(ep_rights);
    crate::laws_authority::handle_goes_by_what_is_held(v, t, p, ep_arg, ep_slot, ep, ep_rights, 8);
    parcel_is_what_is_held(v, t, p, ep_arg, cap_arg, cap_slot, d, rights);
    let (ga, m) = sent_is_parked(g0, g1@, cpu0, t, ep, words, d, Rights(rights), Step::Blocked);
    let attr = WaitingAttr { role: WaitRole::Send, badge: 0 };
    let ok = choose|ok: bool| #[trigger]
        crate::ipc::waits(ga, g1@, t, ep, attr, ok) && Step::<i64>::Blocked == (if ok {
            Step::Blocked
        } else {
            Step::Done(E_BADHANDLE)
        });
    waiting_leaves_the_message(ga, g1@, t, ep, attr);
}

/// A thread that waits keeps its message, and has its edge.
proof fn waiting_leaves_the_message(
    ga: Graph,
    v1: GraphView,
    t: NodeId,
    on: NodeId,
    attr: WaitingAttr,
)
    requires
        ga.wf(),
        ga@.live(t),
        t.kind() == Some(NodeKind::Thread),
        crate::ipc::waits(ga, v1, t, on, attr, true),
    ensures
        v1.live(t),
        v1.thread(t).msg == ga@.thread(t).msg,
        v1.thread(t).state == crate::body::ThreadState::Blocked,
        v1.waits_on(t, on, attr.role),
{
    let v = ga@;
    let u = v.unlink_first(t, Dir::In, EdgeKind::Ready);
    let w = u.unlink_first(t, Dir::Out, EdgeKind::Waiting);
    let e = choose|e: EdgeId| #[trigger] w.unused(e) && v1 == v.made_blocked(t, on, attr, e);
    unqueueing_keeps_capabilities(v, t, Dir::In, EdgeKind::Ready);
    unqueueing_keeps_messages(v, t, Dir::In, EdgeKind::Ready);
    unqueueing_keeps_capabilities(u, t, Dir::Out, EdgeKind::Waiting);
    unqueueing_keeps_messages(u, t, Dir::Out, EdgeKind::Waiting);
    assert(u.thread(t).msg == v.thread(t).msg);
    assert(w.thread(t).msg == v.thread(t).msg);
    attr.round_trip();
    assert(v1.edges.contains_key(e.idx()));
}

// ----------------------------------------------------------------- receives ---

/// What a receive says no to: a buffer that may not be written, and an
/// endpoint without the receive right.
pub proof fn receiving_goes_by_what_is_held(
    g0: Graph,
    g1: Graph,
    cpu0: NodeId,
    t: NodeId,
    p: NodeId,
    s: NodeId,
    ep_arg: u64,
    ep_slot: u32,
    ep: NodeId,
    ep_rights: u32,
    ptr: u64,
    r: Step<Received>,
)
    requires
        g0.wf(),
        g0@.inv(),
        g0@.works_for(t, p),
        g0@.thread_in(t, s),
        crate::laws_authority::names_slot(ep_arg, ep_slot),
        g0@.holds_in(p, ep_slot, ep, ep_rights),
        crate::syscall_objects::receive_answered(g0, g1, cpu0, t, ep_arg, ptr, r),
    ensures
        !g0@.usable(s, ptr, 64, 2) ==> r == Step::Done(Err::<(u32, [u64; 8]), i64>(E_FAULT)) && g1
            == g0,
        g0@.usable(s, ptr, 64, 2) && ep_rights & 16 == 0 ==> r == Step::Done(
            Err::<(u32, [u64; 8]), i64>(E_PERM),
        ) && g1 == g0,
        g0@.usable(s, ptr, 64, 2) && ep_rights & 16 != 0 && (g0@.dying(ep) || ep.kind() != Some(
            NodeKind::Endpoint,
        )) ==> r == Step::Done(Err::<(u32, [u64; 8]), i64>(E_BADHANDLE)) && g1@ == g0@,
{
    crate::laws_authority::one_bit(ep_rights);
    crate::laws_authority::handle_goes_by_what_is_held(
        g0@,
        t,
        p,
        ep_arg,
        ep_slot,
        ep,
        ep_rights,
        16,
    );
    crate::laws_authority::pointers_go_by_mappings(g0@, t, s, ptr, 64, Prot(2));
}

/// A message received is the one that a waiting sender left: its words, and
/// the capability on it in the slot that is answered, with the rights that
/// were left with it.
pub proof fn a_message_received_is_the_senders(
    g0: Graph,
    g1: Graph,
    cpu0: NodeId,
    t: NodeId,
    p: NodeId,
    ep_arg: u64,
    ep_slot: u32,
    ep: NodeId,
    ep_rights: u32,
    ptr: u64,
    slot: u32,
    words: [u64; 8],
)
    requires
        g0.wf(),
        g0@.inv(),
        g0@.works_for(t, p),
        crate::laws_authority::names_slot(ep_arg, ep_slot),
        g0@.holds_in(p, ep_slot, ep, ep_rights),
        crate::syscall_objects::receive_answered(
            g0,
            g1,
            cpu0,
            t,
            ep_arg,
            ptr,
            Step::Done(Ok((slot, words))),
        ),
    ensures
        exists|from: NodeId| #[trigger]
            g0@.waits_on(from, ep, WaitRole::Send) && words == g0@.thread(from).msg.words && ({
                let m = g0@.thread(from).msg;
                if m.has_cap != 0 && !m.cap_target.is_null() {
                    slot != 0 && g1@.holds_in(p, slot, m.cap_target, m.cap_rights)
                } else {
                    slot == 0
                }
            }),
{
    let v = g0@;
    crate::laws_authority::one_bit(ep_rights);
    crate::laws_authority::handle_goes_by_what_is_held(
        v,
        t,
        p,
        ep_arg,
        ep_slot,
        ep,
        ep_rights,
        16,
    );
    assert(crate::ipc::received(g0, g1@, cpu0, t, ep, Step::Done(Ok((slot, words)))));
    let (from, rh) = choose|from: NodeId, rh: Result<u32, i64>|
        v.is_waiter(ep, WaitRole::Send, from) && crate::ipc::handed_over(
            g0,
            g1@,
            cpu0,
            from,
            t,
            from,
            rh,
        ) && Step::Done(Ok::<(u32, [u64; 8]), i64>((slot, words))) == Step::Done(
            match rh {
                Ok(slot) => Ok::<(u32, [u64; 8]), i64>((slot, g1@.thread(t).msg.words)),
                Err(e) => Err::<(u32, [u64; 8]), i64>(e),
            },
        );
    waiters_wait(v, ep, WaitRole::Send, from);
    handing_over_delivers(g0, g1@, cpu0, from, t, from, slot);
}

// -------------------------------------------------------------------- waits ---

/// A receiver that has to wait waits on the endpoint, to receive.
pub proof fn a_waiting_receiver_waits_there(
    g0: Graph,
    g1: Graph,
    cpu0: NodeId,
    t: NodeId,
    p: NodeId,
    ep_arg: u64,
    ep_slot: u32,
    ep: NodeId,
    ep_rights: u32,
    ptr: u64,
)
    requires
        g0.wf(),
        g0@.inv(),
        g0@.works_for(t, p),
        crate::laws_authority::names_slot(ep_arg, ep_slot),
        g0@.holds_in(p, ep_slot, ep, ep_rights),
        crate::syscall_objects::receive_answered(g0, g1, cpu0, t, ep_arg, ptr, Step::Blocked),
    ensures
        g1@.live(t),
        g1@.thread(t).state == crate::body::ThreadState::Blocked,
        g1@.waits_on(t, ep, WaitRole::Recv),
        forall|x: NodeId| !#[trigger] g0@.is_waiter(ep, WaitRole::Send, x),
{
    let v = g0@;
    crate::laws_authority::one_bit(ep_rights);
    crate::laws_authority::handle_goes_by_what_is_held(
        v,
        t,
        p,
        ep_arg,
        ep_slot,
        ep,
        ep_rights,
        16,
    );
    let attr = WaitingAttr { role: WaitRole::Recv, badge: 0 };
    assert(v.no_waiter(ep, WaitRole::Send) && crate::ipc::waits(g0, g1@, t, ep, attr, true)) by {
        assert(crate::ipc::received(g0, g1@, cpu0, t, ep, Step::Blocked));
        if exists|ok: bool| #[trigger]
            crate::ipc::waits(g0, g1@, t, ep, attr, ok) && Step::<Received>::Blocked == (if ok {
                Step::Blocked
            } else {
                Step::Done(Err::<(u32, [u64; 8]), i64>(E_BADHANDLE))
            }) {
            let ok = choose|ok: bool| #[trigger]
                crate::ipc::waits(g0, g1@, t, ep, attr, ok) && Step::<Received>::Blocked == (if ok {
                    Step::Blocked
                } else {
                    Step::Done(Err::<(u32, [u64; 8]), i64>(E_BADHANDLE))
                });
            assert(ok);
        }
    }
    waiting_leaves_the_message(g0, g1@, t, ep, attr);
}

/// Who waits is served in turn: of those who wait on one side, the one that is
/// found came first, and whoever comes to wait goes last.
pub proof fn waiters_are_served_in_turn(v: GraphView, on: NodeId, role: WaitRole, t: NodeId)
    requires
        v.wf(),
        v.live(on),
        v.is_waiter(on, role, t),
    ensures
        exists|i: int|
            0 <= i < v.list(on, Dir::In, EdgeKind::Waiting).len() && v.edges[#[trigger] v.list(
                on,
                Dir::In,
                EdgeKind::Waiting,
            )[i]].src == t && forall|j: int|
                0 <= j < i ==> WaitingAttr::spec_decode(
                    v.edges[#[trigger] v.list(on, Dir::In, EdgeKind::Waiting)[j]].data,
                ).role != role,
{
    let i = choose|i: int| #[trigger]
        v.first_waiting(on, role, i) && t == v.edges[v.list_or_none(
            on,
            Dir::In,
            EdgeKind::Waiting,
        )[i]].src;
    let s = v.list(on, Dir::In, EdgeKind::Waiting);
    assert(v.edges[s[i]].src == t);
    assert forall|j: int| 0 <= j < i implies WaitingAttr::spec_decode(
        v.edges[#[trigger] s[j]].data,
    ).role != role by {
        assert(v.waiting_role(s[j]) != role);
    }
}

/// Whoever comes to wait goes last.
pub proof fn a_new_waiter_goes_last(
    g0: Graph,
    v1: GraphView,
    t: NodeId,
    on: NodeId,
    attr: WaitingAttr,
)
    requires
        crate::ipc::waits(g0, v1, t, on, attr, true),
        t != on,
    ensures
        ({
            let s = v1.list(on, Dir::In, EdgeKind::Waiting);
            s.len() > 0 && v1.edges[s.last()].src == t && v1.edges[s.last()].dst == on
        }),
{
    let w = g0@.unlink_first(t, Dir::In, EdgeKind::Ready).unlink_first(
        t,
        Dir::Out,
        EdgeKind::Waiting,
    );
    let e = choose|e: EdgeId| #[trigger] w.unused(e) && v1 == g0@.made_blocked(t, on, attr, e);
    assert(v1.list(on, Dir::In, EdgeKind::Waiting).last() == e.idx());
}

/// Once a message is handed over, the other side waits no more: it is ready,
/// and last in the cpu's queue.
pub proof fn the_other_side_is_woken(
    g0: Graph,
    v1: GraphView,
    cpu0: NodeId,
    from: NodeId,
    to: NodeId,
    other: NodeId,
    slot: u32,
)
    requires
        other.kind() == Some(NodeKind::Thread),
        crate::ipc::handed_over(g0, v1, cpu0, from, to, other, Ok(slot)),
    ensures
        v1.run_queue(cpu0).len() > 0,
        v1.run_queue(cpu0).last() == other,
        v1.thread(other).state == crate::body::ThreadState::Ready,
{
    let r = Ok::<u32, i64>(slot);
    let (ga, rd, ok) = choose|ga: Graph, rd: Result<u32, i64>, ok: bool| #[trigger]
        crate::ipc::handover_steps(g0, ga, v1, cpu0, from, to, other, rd, ok, r);
    let w = ga@.wait_ended(other);
    assert(ok);
    let e = choose|e: EdgeId| #[trigger]
        w.descheduled(other).unused(e) && v1 == w.made_ready(cpu0, other, e);
    assert(cpu0.kind() == Some(NodeKind::Cpu));
    let s = v1.list(cpu0, Dir::Out, EdgeKind::Ready);
    assert(s.last() == e.idx());
    assert(v1.edges[e.idx()].dst == other);
    assert(v1.run_queue(cpu0)[s.len() - 1] == other);
}

/// A wait that was torn down ends in an error, once; any other ends with what
/// was sent, or left.
pub proof fn a_wait_ends_as_it_was_ended(
    g0: Graph,
    g1: Graph,
    g2: Graph,
    t: NodeId,
    r: i64,
    m: Received,
)
    requires
        g0.wf(),
        g0@.live(t),
        t.kind() == Some(NodeKind::Thread),
        crate::ipc::send_finished(g0, g1, t, r),
        crate::ipc::recv_finished(g0, g2, t, m),
    ensures
        g0@.thread(t).wait_aborted != 0 ==> r == E_BADHANDLE && m is Err && m->Err_0 == E_BADHANDLE
            && g1@.thread(t).wait_aborted == 0 && g2@.thread(t).wait_aborted == 0,
        g0@.thread(t).wait_aborted == 0 ==> r == 0 && g1 == g0 && g2 == g0 && m is Ok && m->Ok_0.0
            == g0@.thread(t).msg.cap_slot && m->Ok_0.1 == g0@.thread(t).msg.words,
{
}

// -------------------------------------------------------------------- words ---

/// The words of a message stand in its buffer in order, eight bytes each, least
/// byte first; and they are written as they are read.
pub proof fn words_stand_in_order(b: Seq<u8>, w: Seq<u64>, i: int)
    requires
        w.len() == 8,
        0 <= i < 8,
    ensures
        crate::syscall_objects::words_in(b)[i] == crate::edge::le64(b, 8 * i),
        crate::edge::le64(crate::syscall_objects::words_bytes(w, 8), 8 * i) == w[i],
{
    crate::syscall_objects::words_read_back(w);
    assert(crate::syscall_objects::words_in(crate::syscall_objects::words_bytes(w, 8))[i] == w[i]);
}

} // verus!

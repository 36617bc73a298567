//! Synchronous message passing over an endpoint.
//!
//! A message exists only while two threads are looking at it: the sender parks
//! it on its own `Thread` node and blocks, or hands it straight to a receiver
//! that is already waiting. There is no queue, so there is no node churn per
//! message and no way for a capability to sit "in transit" inside a kernel
//! object where the ownership tree cannot see it.
//!
//! The whole of the rendezvous is three graph operations: look at the head of
//! the endpoint's `Waiting` in-list, move one edge, and copy sixty-four bytes.
//! An endpoint's state *is* its wait list; there is nothing else to it.

use vstd::prelude::*;

use crate::abi::{E_BADHANDLE, E_NOSPACE};
use crate::body::{Body, Cpu, Endpoint, Message, NodeBody, Process, Rights, Thread, ThreadState};
use crate::edge::{Dir, EdgeAttr, WaitRole, WaitingAttr};
use crate::graph::{Graph, Ref};
use crate::id::{EdgeId, EdgeKind, NodeId, NodeKind};
use crate::view::GraphView;

verus! {

impl Message {
    /// The message hands over a capability.
    pub open spec fn carries(self) -> bool {
        self.has_cap != 0 && !self.cap_target.is_null()
    }
}

impl GraphView {
    /// A thread that has this message parked on it.
    pub open spec fn with_message(self, t: NodeId, msg: Message) -> GraphView {
        self.with_body(t, Body::Thread(Thread { msg, ..self.thread(t) }))
    }

    /// The first thread waiting on an object in a role.
    pub open spec fn is_waiter(self, on: NodeId, role: WaitRole, t: NodeId) -> bool {
        exists|i: int| #[trigger]
            self.first_waiting(on, role, i) && t == self.edges[self.list_or_none(
                on,
                Dir::In,
                EdgeKind::Waiting,
            )[i]].src
    }

    /// Nobody waits on an object in a role.
    pub open spec fn no_waiter(self, on: NodeId, role: WaitRole) -> bool {
        forall|i: int| !self.first_waiting(on, role, i)
    }
}

// ---------------------------------------------------------------- delivery ---

/// What copying a message from one thread to another does.
pub open spec fn delivered(
    g0: Graph,
    v1: GraphView,
    from: NodeId,
    to: NodeId,
    r: Result<u32, i64>,
) -> bool {
    let v = g0@;
    let msg = v.thread(from).msg;
    let p = v.thread(to).owner_proc;
    if !v.live(from) || !v.live(to) {
        r == Err::<u32, i64>(E_BADHANDLE) && v1 == v
    } else if !msg.carries() {
        r == Ok::<u32, i64>(0) && v1 == v.with_message(to, Message { cap_slot: 0, ..msg })
    } else if !(v.live(p) && p.kind() == Some(NodeKind::Process)) {
        r == Err::<u32, i64>(E_BADHANDLE) && v1 == v
    } else if g0.grant_refusal(p, msg.cap_target) is Some {
        r == Err::<u32, i64>(E_NOSPACE) && v1 == v
    } else {
        let slot = v.process(p).free_slot()->Some_0;
        &&& r == Ok::<u32, i64>(slot)
        &&& v1 == v.granted(
            p,
            msg.cap_target,
            Rights(msg.cap_rights),
            slot,
            g0.next_edge(),
        ).with_message(to, Message { cap_slot: slot, ..msg })
    }
}

/// Copy a message from one thread to another, carrying any capability with it.
///
/// A transferred capability is a new `Holds` edge on the receiver, never a move
/// of the sender's: the sender keeps what it had unless it revokes it. Rights
/// can only narrow, because they are masked by what the sender held when it
/// called.
fn deliver(g: &mut Graph, from: Ref<Thread>, to: Ref<Thread>) -> (r: Result<u32, i64>)
    requires
        old(g).wf(),
        old(g).seq < u64::MAX,
    ensures
        final(g).wf(),
        delivered(*old(g), final(g)@, from.id(), to.id(), r),
        final(g).seq <= old(g).seq + 1,
        forall|id: NodeId| #[trigger] final(g)@.live(id) == old(g)@.live(id),
        final(g)@.since(old(g)@),
{
    let ghost v = g@;
    let msg: Message = match g.body(from) {
        Some(b) => b.msg,
        None => return Err(E_BADHANDLE),
    };
    let to_proc: NodeId = match g.body(to) {
        Some(b) => b.owner_proc,
        None => return Err(E_BADHANDLE),
    };
    proof {
        assert(v.nodes.contains_key(from.id()));
        assert(v.node_ok(from.id()));
        assert(v.nodes.contains_key(to.id()));
        assert(v.node_ok(to.id()));
    }
    let mut slot: u32 = 0;
    if msg.has_cap != 0 && !msg.cap_target.is_null() {
        let p = match g.typed::<Process>(to_proc) {
            Some(p) => p,
            None => return Err(E_BADHANDLE),
        };
        proof {
            assert(v.nodes.contains_key(p.id()));
            assert(v.node_ok(p.id()));
        }
        match g.grant_raw(p, msg.cap_target, Rights(msg.cap_rights)) {
            Ok(s) => {
                slot = s;
            },
            Err(_) => return Err(E_NOSPACE),
        }
    }
    let body: Thread = match g.body(to) {
        Some(b) => *b,
        None => return Err(E_BADHANDLE),
    };
    let mut nb: Thread = body;
    nb.msg = msg;
    nb.msg.cap_slot = slot;
    g.write_body(to, nb);
    Ok(slot)
}

// ------------------------------------------------------------------ waking ---

/// What waking a waiting thread does, and whether it could be woken.
pub open spec fn woken(g0: Graph, v1: GraphView, cpu: NodeId, t: NodeId, ok: bool) -> bool {
    if g0.link_refusal(cpu, EdgeKind::Ready, t) is Some {
        !ok && v1 == g0@
    } else {
        let w = g0@.wait_ended(t);
        if w.cannot_queue(t) {
            !ok && v1 == w
        } else {
            ok && exists|e: EdgeId| #[trigger]
                w.descheduled(t).unused(e) && v1 == w.made_ready(cpu, t, e)
        }
    }
}

/// Wake a thread onto the cpu, which has to be there.
fn wake(g: &mut Graph, cpu0: NodeId, t: Ref<Thread>) -> (r: bool)
    requires
        old(g).wf(),
        old(g).seq + 4 <= u64::MAX,
    ensures
        final(g).wf(),
        old(g)@.is_cpu(cpu0) ==> woken(*old(g), final(g)@, cpu0, t.id(), r),
        !old(g)@.is_cpu(cpu0) ==> !r && *final(g) == *old(g),
        final(g).seq <= old(g).seq + 4,
        final(g)@.since(old(g)@),
{
    match g.typed::<Cpu>(cpu0) {
        Some(c) => g.wake(c, t).is_ok(),
        None => false,
    }
}

/// Hand a message over and wake the other side.
pub open spec fn handed_over(
    g0: Graph,
    v1: GraphView,
    cpu0: NodeId,
    from: NodeId,
    to: NodeId,
    other: NodeId,
    r: Result<u32, i64>,
) -> bool {
    exists|ga: Graph, rd: Result<u32, i64>, ok: bool| #[trigger]
        handover_steps(g0, ga, v1, cpu0, from, to, other, rd, ok, r)
}

pub open spec fn handover_steps(
    g0: Graph,
    ga: Graph,
    v1: GraphView,
    cpu0: NodeId,
    from: NodeId,
    to: NodeId,
    other: NodeId,
    rd: Result<u32, i64>,
    ok: bool,
    r: Result<u32, i64>,
) -> bool {
    &&& ga.wf()
    &&& delivered(g0, ga@, from, to, rd)
    &&& match rd {
        Err(e) => r == Err::<u32, i64>(e) && v1 == ga@,
        Ok(slot) => if !ga@.is_cpu(cpu0) {
            r == Err::<u32, i64>(E_BADHANDLE) && v1 == ga@
        } else {
            &&& woken(ga, v1, cpu0, other, ok)
            &&& r == if ok {
                Ok::<u32, i64>(slot)
            } else {
                Err::<u32, i64>(E_BADHANDLE)
            }
        },
    }
}

fn hand_over(
    g: &mut Graph,
    cpu0: NodeId,
    from: Ref<Thread>,
    to: Ref<Thread>,
    other: Ref<Thread>,
) -> (r: Result<u32, i64>)
    requires
        old(g).wf(),
        old(g).seq + 5 <= u64::MAX,
    ensures
        final(g).wf(),
        handed_over(*old(g), final(g)@, cpu0, from.id(), to.id(), other.id(), r),
        final(g).seq <= old(g).seq + 5,
        final(g)@.since(old(g)@),
{
    let ghost g0 = *g;
    let rd = deliver(g, from, to);
    let ghost ga = *g;
    let slot: u32 = match rd {
        Ok(s) => s,
        Err(e) => {
            let r = Err(e);
            assert(handover_steps(
                g0,
                ga,
                g@,
                cpu0,
                from.id(),
                to.id(),
                other.id(),
                rd,
                false,
                r,
            ));
            return r;
        },
    };
    let ok: bool = wake(g, cpu0, other);
    let r = if ok {
        Ok(slot)
    } else {
        Err(E_BADHANDLE)
    };
    assert(handover_steps(g0, ga, g@, cpu0, from.id(), to.id(), other.id(), rd, ok, r));
    r
}

// ----------------------------------------------------------------- sending ---

/// What a send or a receive comes to at once: an answer, or a wait.
#[derive(Clone, Copy, Debug, PartialEq, Eq)]
pub enum Step<T> {
    Done(T),
    Blocked,
}

/// The message a send parks.
pub open spec fn is_parcel(
    m: Message,
    words: [u64; 8],
    cap_target: NodeId,
    cap_rights: Rights,
) -> bool {
    m == Message {
        words,
        cap_target,
        cap_rights: cap_rights.0,
        cap_slot: 0,
        has_cap: if cap_target.is_null() {
            0
        } else {
            1
        },
    }
}

/// What waiting on an endpoint does, and whether the thread could wait.
pub open spec fn waits(g0: Graph, v1: GraphView, t: NodeId, on: NodeId, attr: WaitingAttr, ok: bool) -> bool {
    match g0.link_refusal(t, EdgeKind::Waiting, on) {
        Some(_) => !ok && v1 == g0@,
        None => ok && exists|e: EdgeId| #[trigger]
            g0@.unlink_first(t, Dir::In, EdgeKind::Ready).unlink_first(
                t,
                Dir::Out,
                EdgeKind::Waiting,
            ).unused(e) && v1 == g0@.made_blocked(t, on, attr, e),
    }
}

/// What a send does: the message is parked on the sender, and handed to the
/// first waiting receiver; with none, the sender waits.
pub open spec fn sent(
    g0: Graph,
    v1: GraphView,
    cpu0: NodeId,
    me: NodeId,
    ep: NodeId,
    words: [u64; 8],
    cap_target: NodeId,
    cap_rights: Rights,
    r: Step<i64>,
) -> bool {
    if ep.kind() != Some(NodeKind::Endpoint) || !g0@.live(ep) || !g0@.is_thread(me) {
        r == Step::Done(E_BADHANDLE) && v1 == g0@
    } else {
        exists|ga: Graph, m: Message| #[trigger]
            parked(g0, ga, me, m) && is_parcel(m, words, cap_target, cap_rights)
                && message_offered(ga, v1, cpu0, me, ep, r)
    }
}

pub open spec fn parked(g0: Graph, ga: Graph, me: NodeId, m: Message) -> bool {
    ga.wf() && ga@ == g0@.with_message(me, m)
}

pub open spec fn message_offered(
    ga: Graph,
    v1: GraphView,
    cpu0: NodeId,
    me: NodeId,
    ep: NodeId,
    r: Step<i64>,
) -> bool {
    ||| exists|to: NodeId, rh: Result<u32, i64>|
        #![trigger ga@.is_waiter(ep, WaitRole::Recv, to), handed_over(ga, v1, cpu0, me, to, to, rh)]
        ga@.is_waiter(ep, WaitRole::Recv, to) && handed_over(ga, v1, cpu0, me, to, to, rh) && r
            == Step::Done(
            match rh {
                Ok(_) => 0,
                Err(e) => e,
            },
        )
    ||| ga@.no_waiter(ep, WaitRole::Recv) && exists|ok: bool| #[trigger]
        waits(ga, v1, me, ep, WaitingAttr { role: WaitRole::Send, badge: 0 }, ok) && r == (if ok {
            Step::Blocked
        } else {
            Step::Done(E_BADHANDLE)
        })
}

/// Send: hand the message to a waiting receiver, or block until one comes. A
/// blocked sender goes on with `send_finish` once it is woken.
pub fn send(
    g: &mut Graph,
    cpu0: NodeId,
    me_id: NodeId,
    ep_id: NodeId,
    words: [u64; 8],
    cap_target: NodeId,
    cap_rights: Rights,
) -> (r: Step<i64>)
    requires
        old(g).wf(),
        old(g).seq + 5 <= u64::MAX,
    ensures
        final(g).wf(),
        sent(
            *old(g),
            final(g)@,
            cpu0,
            me_id,
            ep_id,
            words,
            cap_target,
            cap_rights,
            r,
        ),
        final(g)@.since(old(g)@),
{
    let ghost g0 = *g;
    let ep = match g.typed::<Endpoint>(ep_id) {
        Some(e) => e,
        None => return Step::Done(E_BADHANDLE),
    };
    let me = match g.typed::<Thread>(me_id) {
        Some(t) => t,
        None => return Step::Done(E_BADHANDLE),
    };
    // Park the message on our own node. This is the only place it lives.
    let has_cap: u8 = if cap_target.is_null() {
        0
    } else {
        1
    };
    let m = Message { words, cap_target, cap_rights: cap_rights.0, cap_slot: 0, has_cap };
    proof {
        assert(g@.nodes.contains_key(me_id));
        assert(g@.node_ok(me_id));
    }
    let body: Thread = match g.body(me) {
        Some(b) => *b,
        None => return Step::Done(E_BADHANDLE),
    };
    g.write_body(me, Thread { msg: m, ..body });
    let ghost ga = *g;
    assert(parked(g0, ga, me_id, m));
    assert(g.seq == g0.seq) by {
        assert(g@.seq == g0@.seq);
    }
    // Is someone already waiting to receive? The head of one list answers it.
    let r = match g.first_waiter(ep_id, WaitRole::Recv) {
        Some(receiver) => {
            assert(ga@.is_waiter(ep_id, WaitRole::Recv, receiver.id()));
            let rh = hand_over(g, cpu0, me, receiver, receiver);
            assert(handed_over(ga, g@, cpu0, me_id, receiver.id(), receiver.id(), rh));
            match rh {
                Ok(_) => Step::Done(0),
                Err(e) => Step::Done(e),
            }
        },
        None => {
            // Nobody there. Block on the endpoint and wait to be collected.
            let ok: bool = g.make_blocked(
                me,
                ep,
                WaitingAttr { role: WaitRole::Send, badge: 0 },
            ).is_ok();
            assert(waits(
                ga,
                g@,
                me_id,
                ep_id,
                WaitingAttr { role: WaitRole::Send, badge: 0 },
                ok,
            ));
            if ok {
                Step::Blocked
            } else {
                Step::Done(E_BADHANDLE)
            }
        },
    };
    assert(message_offered(ga, g@, cpu0, me_id, ep_id, r));
    r
}

/// A thread whose wait was torn down because the endpoint was destroyed.
pub open spec fn was_aborted(v: GraphView, t: NodeId) -> bool {
    !v.live(t) || v.thread(t).wait_aborted != 0
}

/// The same thread with the news taken.
pub open spec fn abort_noted(v: GraphView, t: NodeId) -> GraphView {
    if v.live(t) {
        v.with_body(t, Body::Thread(Thread { wait_aborted: 0, ..v.thread(t) }))
    } else {
        v
    }
}

/// Was the wait torn down? Better an error than a thread that blocks for ever
/// on an object that no longer exists.
fn take_abort(g: &mut Graph, me: Ref<Thread>) -> (r: bool)
    requires
        old(g).wf(),
    ensures
        final(g).wf(),
        r == was_aborted(old(g)@, me.id()),
        r ==> final(g)@ == abort_noted(old(g)@, me.id()),
        !r ==> *final(g) == *old(g),
        final(g)@.since(old(g)@),
{
    let body: Thread = match g.body(me) {
        Some(b) => *b,
        None => return true,
    };
    proof {
        assert(g@.nodes.contains_key(me.id()));
        assert(g@.node_ok(me.id()));
    }
    if body.wait_aborted == 0 {
        return false;
    }
    g.write_body(me, Thread { wait_aborted: 0, ..body });
    true
}

/// Is this thread still waiting? The loop that asks is not paranoia: a timer can
/// preempt the thread between blocking and yielding, and re-reading the state
/// rather than assuming makes both orderings correct.
pub fn still_blocked(g: &Graph, me: Ref<Thread>) -> (r: bool)
    requires
        g.wf(),
    ensures
        r == (g@.live(me.id()) && g@.thread(me.id()).state == ThreadState::Blocked),
{
    match g.body(me) {
        Some(b) => {
            proof {
                assert(g@.nodes.contains_key(me.id()));
                assert(g@.node_ok(me.id()));
            }
            matches!(b.state, ThreadState::Blocked)
        },
        None => false,
    }
}

/// What the end of a sender's wait comes to.
pub open spec fn send_finished(g0: Graph, g1: Graph, me: NodeId, r: i64) -> bool {
    if was_aborted(g0@, me) {
        r == E_BADHANDLE && g1@ == abort_noted(g0@, me)
    } else {
        r == 0 && g1 == g0
    }
}

/// What the end of a receiver's wait comes to.
pub open spec fn recv_finished(g0: Graph, g1: Graph, me: NodeId, r: Received) -> bool {
    if was_aborted(g0@, me) {
        r == Err::<(u32, [u64; 8]), i64>(E_BADHANDLE) && g1@ == abort_noted(g0@, me)
    } else {
        &&& r == Ok::<(u32, [u64; 8]), i64>(
            (g0@.thread(me).msg.cap_slot, g0@.thread(me).msg.words),
        )
        &&& g1 == g0
    }
}

/// What a sender that waited comes back with.
pub fn send_finish(g: &mut Graph, me: Ref<Thread>) -> (r: i64)
    requires
        old(g).wf(),
    ensures
        final(g).wf(),
        send_finished(*old(g), *final(g), me.id(), r),
        final(g)@.since(old(g)@),
{
    if take_abort(g, me) {
        E_BADHANDLE
    } else {
        0
    }
}

// --------------------------------------------------------------- receiving ---

/// A message received: the slot a transferred capability landed in, or zero,
/// and the words.
pub type Received = Result<(u32, [u64; 8]), i64>;

/// What a receive does: the first waiting sender's message is taken; with
/// none, the receiver waits.
pub open spec fn received(
    g0: Graph,
    v1: GraphView,
    cpu0: NodeId,
    me: NodeId,
    ep: NodeId,
    r: Step<Received>,
) -> bool {
    if ep.kind() != Some(NodeKind::Endpoint) || !g0@.live(ep) || !g0@.is_thread(me) {
        r == Step::Done(Err::<(u32, [u64; 8]), i64>(E_BADHANDLE)) && v1 == g0@
    } else {
        ||| exists|from: NodeId, rh: Result<u32, i64>|
            #![trigger g0@.is_waiter(ep, WaitRole::Send, from), handed_over(g0, v1, cpu0, from, me, from, rh)]
            g0@.is_waiter(ep, WaitRole::Send, from) && handed_over(
                g0,
                v1,
                cpu0,
                from,
                me,
                from,
                rh,
            ) && r == Step::Done(
                match rh {
                    Ok(slot) => Ok::<(u32, [u64; 8]), i64>((slot, v1.thread(me).msg.words)),
                    Err(e) => Err::<(u32, [u64; 8]), i64>(e),
                },
            )
        ||| g0@.no_waiter(ep, WaitRole::Send) && exists|ok: bool| #[trigger]
            waits(g0, v1, me, ep, WaitingAttr { role: WaitRole::Recv, badge: 0 }, ok) && r == (
            if ok {
                Step::Blocked
            } else {
                Step::Done(Err::<(u32, [u64; 8]), i64>(E_BADHANDLE))
            })
    }
}

/// Receive: take a waiting sender's message, or block until one arrives. A
/// blocked receiver goes on with `recv_finish` once it is woken.
#[verifier::spinoff_prover]
#[verifier::rlimit(60)]
pub fn recv(g: &mut Graph, cpu0: NodeId, me_id: NodeId, ep_id: NodeId) -> (r: Step<Received>)
    requires
        old(g).wf(),
        old(g).seq + 5 <= u64::MAX,
    ensures
        final(g).wf(),
        received(*old(g), final(g)@, cpu0, me_id, ep_id, r),
        final(g)@.since(old(g)@),
{
    let ghost g0 = *g;
    let ep = match g.typed::<Endpoint>(ep_id) {
        Some(e) => e,
        None => return Step::Done(Err(E_BADHANDLE)),
    };
    let me = match g.typed::<Thread>(me_id) {
        Some(t) => t,
        None => return Step::Done(Err(E_BADHANDLE)),
    };
    match g.first_waiter(ep_id, WaitRole::Send) {
        Some(sender) => {
            assert(g0@.is_waiter(ep_id, WaitRole::Send, sender.id()));
            let rh = hand_over(g, cpu0, sender, me, sender);
            assert(handed_over(g0, g@, cpu0, sender.id(), me_id, sender.id(), rh));
            match rh {
                Err(e) => Step::Done(Err(e)),
                Ok(slot) => {
                    let words: [u64; 8] = match g.body(me) {
                        Some(b) => b.msg.words,
                        None => return Step::Done(Err(E_BADHANDLE)),
                    };
                    proof {
                        assert(g@.nodes.contains_key(me_id));
                        assert(g@.node_ok(me_id));
                    }
                    Step::Done(Ok((slot, words)))
                },
            }
        },
        None => {
            let ok: bool = g.make_blocked(
                me,
                ep,
                WaitingAttr { role: WaitRole::Recv, badge: 0 },
            ).is_ok();
            assert(waits(
                g0,
                g@,
                me_id,
                ep_id,
                WaitingAttr { role: WaitRole::Recv, badge: 0 },
                ok,
            ));
            if ok {
                Step::Blocked
            } else {
                Step::Done(Err(E_BADHANDLE))
            }
        },
    }
}

/// What a receiver that waited comes back with: what the sender left on it.
pub fn recv_finish(g: &mut Graph, me: Ref<Thread>) -> (r: Received)
    requires
        old(g).wf(),
    ensures
        final(g).wf(),
        recv_finished(*old(g), *final(g), me.id(), r),
        final(g)@.since(old(g)@),
{
    if take_abort(g, me) {
        return Err(E_BADHANDLE);
    }
    match g.body(me) {
        Some(b) => {
            proof {
                assert(g@.nodes.contains_key(me.id()));
                assert(g@.node_ok(me.id()));
            }
            Ok((b.msg.cap_slot, b.msg.words))
        },
        None => Err(E_BADHANDLE),
    }
}

} // verus!

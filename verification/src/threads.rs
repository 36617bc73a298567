//! Scheduling: a run queue is a cpu's `Ready` list, a wait is a `Waiting` edge,
//! and a thread's state always agrees with both.

use vstd::prelude::*;

use crate::body::{Body, Cpu, NodeBody, Thread, ThreadState, Waitable};
use crate::edge::{Dir, EdgeAttr, ReadyAttr, WaitRole, WaitingAttr};
use crate::graph::{Graph, GraphError, Ref, Result};
use crate::id::{EdgeId, EdgeKind, NodeId, NodeKind};
use crate::limits::{MAX_EDGES, MAX_WALK};
use crate::slab::{list_move_to_tail, nexts, prevs, relinked, without};
use crate::store::Store;
use crate::view::{GraphView, ListKey};

verus! {

impl GraphView {
    pub open spec fn with_state(self, t: NodeId, state: ThreadState) -> GraphView {
        self.with_body(t, Body::Thread(Thread { state, ..self.thread(t) }))
    }

    /// A thread taken off every queue, and nothing more.
    pub open spec fn descheduled(self, t: NodeId) -> GraphView {
        self.unlink_first(t, Dir::Out, EdgeKind::Waiting).unlink_first(t, Dir::In, EdgeKind::Ready)
    }

    /// A thread moved onto a cpu's run queue, through edge `e`.
    pub open spec fn made_ready(self, cpu: NodeId, t: NodeId, e: EdgeId) -> GraphView {
        self.descheduled(t).link(
            cpu,
            EdgeKind::Ready,
            t,
            (ReadyAttr { prio: 0 }).spec_bytes(),
            e.idx(),
            e.generation(),
        ).with_state(t, ThreadState::Ready)
    }

    /// A thread taken off the run queue and running.
    pub open spec fn taken_to_run(self, t: NodeId) -> GraphView {
        self.unlink_first(t, Dir::In, EdgeKind::Ready).with_state(t, ThreadState::Running)
    }

    pub open spec fn with_current(self, cpu: NodeId, t: NodeId) -> GraphView {
        self.with_body(cpu, Body::Cpu(Cpu { current: t, ..self.cpu(cpu) }))
    }

    /// A thread blocked on an object, through edge `e`.
    pub open spec fn made_blocked(
        self,
        t: NodeId,
        on: NodeId,
        attr: WaitingAttr,
        e: EdgeId,
    ) -> GraphView {
        self.unlink_first(t, Dir::In, EdgeKind::Ready).unlink_first(
            t,
            Dir::Out,
            EdgeKind::Waiting,
        ).link(t, EdgeKind::Waiting, on, attr.spec_bytes(), e.idx(), e.generation()).with_state(
            t,
            ThreadState::Blocked,
        )
    }

    /// A thread whose wait ended in the ordinary way: no wait, no abort flag,
    /// and in a state from which it can be queued.
    pub open spec fn wait_ended(self, t: NodeId) -> GraphView {
        let w = self.unlink_first(t, Dir::Out, EdgeKind::Waiting);
        let b = w.thread(t);
        w.with_body(
            t,
            Body::Thread(
                Thread {
                    wait_aborted: 0,
                    state: if b.state == ThreadState::Inert {
                        ThreadState::Blocked
                    } else {
                        b.state
                    },
                    ..b
                },
            ),
        )
    }

    /// A thread in this state cannot be put on a run queue.
    pub open spec fn cannot_queue(self, t: NodeId) -> bool {
        self.thread(t).state == ThreadState::Ready || self.thread(t).state == ThreadState::Dying
    }

    /// The thread at the head of a cpu's run queue.
    pub open spec fn queue_head(self, cpu: NodeId) -> Option<NodeId> {
        let s = self.list_or_none(cpu, Dir::Out, EdgeKind::Ready);
        if s.len() > 0 {
            Some(self.edges[s[0]].dst)
        } else {
            None
        }
    }

    /// A cpu's run queue, as threads in order.
    pub open spec fn run_queue(self, cpu: NodeId) -> Seq<NodeId> {
        let s = self.list(cpu, Dir::Out, EdgeKind::Ready);
        Seq::new(s.len(), |i: int| self.edges[s[i]].dst)
    }

    pub open spec fn waiting_role(self, e: u32) -> WaitRole {
        WaitingAttr::spec_decode(self.edges[e].data).role
    }

    /// Position `i` holds the first waiter in this role among those a walk
    /// looks at.
    pub open spec fn first_waiting(self, on: NodeId, role: WaitRole, i: int) -> bool {
        let s = self.list_or_none(on, Dir::In, EdgeKind::Waiting);
        &&& 0 <= i < s.len()
        &&& i < MAX_WALK
        &&& self.waiting_role(s[i]) == role
        &&& forall|j: int| 0 <= j < i ==> self.waiting_role(#[trigger] s[j]) != role
    }
}

impl Graph {
    /// Remove the first edge of a list, if there is one.
    pub(crate) fn unlink_first(&mut self, id: NodeId, dir: Dir, kind: EdgeKind)
        requires
            old(self).wf(),
            old(self)@.live(id),
            old(self).seq < u64::MAX,
        ensures
            final(self).wf(),
            final(self)@ == old(self)@.unlink_first(id, dir, kind),
            final(self).edges.live == old(self).edges.live - (if old(self)@.list(
                id,
                dir,
                kind,
            ).len() > 0 {
                1int
            } else {
                0
            }),
            final(self).seq <= old(self).seq + 1,
            !old(self)@.edge_stock.full() ==> !final(self)@.edge_stock.full(),
            forall|n: NodeId| #[trigger] final(self)@.live(n) == old(self)@.live(n),
            forall|n: NodeId|
                old(self)@.live(n) ==> #[trigger] final(self)@.dying(n) == old(self)@.dying(n),
            forall|k: NodeKind| #[trigger] final(self).books(k) == old(self).books(k),
            final(self)@.since(old(self)@),
    {
        let ghost v = self@;
        proof {
            crate::steps::unlink_first_keeps_nodes(v, id, dir, kind);
        }
        let first = match dir {
            Dir::Out => self.first_out(id, kind),
            Dir::In => self.first_in(id, kind),
        };
        if let Some(e) = first {
            let _ = self.unlink(e);
        }
        proof {
            assert forall|n: NodeId| v.live(n) implies #[trigger] self@.dying(n) == v.dying(n) by {
                assert(v.nodes.contains_key(n));
                assert(self@.nodes[n].flags == v.nodes[n].flags);
            }
        }
    }

    /// A link that would have been accepted still is after the removals.
    proof fn still_linkable(self, o: Graph, src: NodeId, kind: EdgeKind, dst: NodeId)
        requires
            o.link_refusal(src, kind, dst) is None,
            forall|n: NodeId| #[trigger] self@.live(n) == o@.live(n),
            forall|n: NodeId| o@.live(n) ==> #[trigger] self@.dying(n) == o@.dying(n),
            !self@.edge_stock.full(),
        ensures
            self.link_refusal(src, kind, dst) is None,
    {
        assert(self@.live(src) && self@.live(dst));
        assert(self@.dying(src) == o@.dying(src));
        assert(self@.dying(dst) == o@.dying(dst));
    }

    /// Why a thread could not be queued, if it could not.
    pub open spec fn ready_refusal(self, cpu: NodeId, t: NodeId) -> Option<GraphError> {
        if !self@.live(t) {
            Some(GraphError::StaleNode(t))
        } else if self@.cannot_queue(t) {
            Some(GraphError::BadState)
        } else {
            self.link_refusal(cpu, EdgeKind::Ready, t)
        }
    }

    /// Move a thread onto a cpu's run queue. One edge, one state field.
    pub fn make_ready(&mut self, cpu: Ref<Cpu>, t: Ref<Thread>) -> (r: Result<()>)
        requires
            old(self).wf(),
            old(self).seq + 3 <= u64::MAX,
        ensures
            final(self).wf(),
            match old(self).ready_refusal(cpu.id(), t.id()) {
                Some(e) => r == Err::<(), GraphError>(e) && *final(self) == *old(self),
                None => {
                    &&& r == Ok::<(), GraphError>(())
                    &&& exists|e: EdgeId| #[trigger]
                        old(self)@.descheduled(t.id()).unused(e) && final(self)@ == old(self)@.made_ready(cpu.id(), t.id(), e)
                },
            },
            final(self).seq <= old(self).seq + 3,
            final(self)@.since(old(self)@),
    {
        let ghost g0 = *self;
        let cid = cpu.id();
        let tid = t.id();
        match self.body(t) {
            None => return Err(GraphError::StaleNode(tid)),
            Some(b) => {
                if b.state == ThreadState::Ready || b.state == ThreadState::Dying {
                    return Err(GraphError::BadState);
                }
            },
        }
        // Validate before detaching: a failure here must leave the thread's
        // state and its scheduler edges agreeing.
        match self.precheck_link(cid, EdgeKind::Ready, tid) {
            Err(e) => return Err(e),
            Ok(_) => {},
        }
        self.unlink_first(tid, Dir::Out, EdgeKind::Waiting);
        let ghost g1 = *self;
        self.unlink_first(tid, Dir::In, EdgeKind::Ready);
        let ghost g2 = *self;
        proof {
            assert forall|n: NodeId| #[trigger] g2@.live(n) == g0@.live(n) by {
                assert(g1@.live(n) == g0@.live(n));
            }
            assert forall|n: NodeId| g0@.live(n) implies #[trigger] g2@.dying(n) == g0@.dying(
                n,
            ) by {
                assert(g1@.live(n) && g1@.dying(n) == g0@.dying(n));
            }
            g2.still_linkable(g0, cid, EdgeKind::Ready, tid);
        }
        let attr = ReadyAttr::default();
        match self.link_raw(cid, EdgeKind::Ready, tid, attr.encode()) {
            Err(e) => Err(e),
            Ok(e) => {
                let ghost g3 = *self;
                self.set_state(t, ThreadState::Ready);
                proof {
                    assert(g0@.descheduled(tid).unused(e));
                    assert(self@ == g0@.made_ready(cid, tid, e));
                }
                Ok(())
            },
        }
    }

    /// Write a live thread's state.
    fn set_state(&mut self, t: Ref<Thread>, state: ThreadState)
        requires
            old(self).wf(),
            old(self)@.live(t.id()),
        ensures
            final(self).wf(),
            final(self).edges == old(self).edges,
            final(self)@ == old(self)@.with_state(t.id(), state),
            final(self).seq == old(self).seq,
            final(self)@.since(old(self)@),
    {
        if let Some(b) = self.body(t) {
            let mut nb: Thread = *b;
            nb.state = state;
            self.write_body(t, nb);
        }
    }

    /// Take the queue head and make it the running thread.
    pub fn make_running(&mut self, cpu: Ref<Cpu>, t: Ref<Thread>) -> (r: Result<()>)
        requires
            old(self).wf(),
            old(self).seq < u64::MAX,
        ensures
            final(self).wf(),
            !old(self)@.live(t.id()) ==> r == Err::<(), GraphError>(GraphError::StaleNode(t.id()))
                && *final(self) == *old(self),
            old(self)@.live(t.id()) && !old(self)@.live(cpu.id()) ==> r == Err::<(), GraphError>(
                GraphError::StaleNode(cpu.id()),
            ) && *final(self) == *old(self),
            old(self)@.live(t.id()) && old(self)@.live(cpu.id()) ==> r == Ok::<(), GraphError>(())
                && final(self)@ == old(self)@.taken_to_run(t.id()).with_current(cpu.id(), t.id()),
            final(self).seq <= old(self).seq + 1,
            final(self)@.since(old(self)@),
    {
        let tid = t.id();
        let cid = cpu.id();
        if !self.is_live(tid) {
            return Err(GraphError::StaleNode(tid));
        }
        if !self.is_live(cid) {
            return Err(GraphError::StaleNode(cid));
        }
        let ghost g0 = *self;
        self.unlink_first(tid, Dir::In, EdgeKind::Ready);
        let ghost g1 = *self;
        self.set_state(t, ThreadState::Running);
        proof {
            assert(self@.live(cid) == g0@.live(cid)) by {
                assert(g1@.live(cid) == g0@.live(cid));
            }
        }
        match self.body(cpu) {
            None => Err(GraphError::StaleNode(cid)),
            Some(b) => {
                let mut nb: Cpu = *b;
                nb.current = tid;
                self.write_body(cpu, nb);
                Ok(())
            },
        }
    }

    /// Block a thread on an endpoint or device.
    pub fn make_blocked<B: Waitable>(&mut self, t: Ref<Thread>, on: Ref<B>, attr: WaitingAttr) -> (r:
        Result<()>)
        requires
            old(self).wf(),
            old(self).seq + 3 <= u64::MAX,
        ensures
            final(self).wf(),
            match old(self).link_refusal(t.id(), EdgeKind::Waiting, on.id()) {
                Some(e) => r == Err::<(), GraphError>(e) && *final(self) == *old(self),
                None => {
                    &&& r == Ok::<(), GraphError>(())
                    &&& exists|e: EdgeId| #[trigger]
                        old(self)@.unlink_first(t.id(), Dir::In, EdgeKind::Ready).unlink_first(
                            t.id(),
                            Dir::Out,
                            EdgeKind::Waiting,
                        ).unused(e) && final(self)@ == old(self)@.made_blocked(
                            t.id(),
                            on.id(),
                            attr,
                            e,
                        )
                },
            },
            final(self).seq <= old(self).seq + 3,
            final(self)@.since(old(self)@),
    {
        let ghost g0 = *self;
        let tid = t.id();
        let oid = on.id();
        match self.precheck_link(tid, EdgeKind::Waiting, oid) {
            Err(e) => return Err(e),
            Ok(_) => {},
        }
        self.unlink_first(tid, Dir::In, EdgeKind::Ready);
        let ghost g1 = *self;
        self.unlink_first(tid, Dir::Out, EdgeKind::Waiting);
        let ghost g2 = *self;
        proof {
            assert forall|n: NodeId| #[trigger] g2@.live(n) == g0@.live(n) by {
                assert(g1@.live(n) == g0@.live(n));
            }
            assert forall|n: NodeId| g0@.live(n) implies #[trigger] g2@.dying(n) == g0@.dying(
                n,
            ) by {
                assert(g1@.live(n) && g1@.dying(n) == g0@.dying(n));
            }
            g2.still_linkable(g0, tid, EdgeKind::Waiting, oid);
        }
        match self.link_raw(tid, EdgeKind::Waiting, oid, attr.encode()) {
            Err(e) => Err(e),
            Ok(e) => {
                self.set_state(t, ThreadState::Blocked);
                proof {
                    assert(g2@.unused(e));
                    assert(self@ == g0@.made_blocked(tid, oid, attr, e));
                }
                Ok(())
            },
        }
    }

    /// Normal wakeup: end a wait and queue the thread. Distinct from having the
    /// wait torn down under it, which sets `wait_aborted`.
    pub fn wake(&mut self, cpu: Ref<Cpu>, t: Ref<Thread>) -> (r: Result<()>)
        requires
            old(self).wf(),
            old(self).seq + 4 <= u64::MAX,
        ensures
            final(self).wf(),
            match old(self).link_refusal(cpu.id(), EdgeKind::Ready, t.id()) {
                Some(e) => r == Err::<(), GraphError>(e) && *final(self) == *old(self),
                None => {
                    let w = old(self)@.wait_ended(t.id());
                    &&& w.cannot_queue(t.id()) ==> r == Err::<(), GraphError>(GraphError::BadState)
                        && final(self)@ == w
                    &&& !w.cannot_queue(t.id()) ==> r == Ok::<(), GraphError>(())
                        && exists|e: EdgeId| #[trigger]
                        w.descheduled(t.id()).unused(e) && final(self)@ == w.made_ready(
                            cpu.id(),
                            t.id(),
                            e,
                        )
                },
            },
            final(self).seq <= old(self).seq + 4,
            final(self)@.since(old(self)@),
    {
        let ghost g0 = *self;
        let cid = cpu.id();
        let tid = t.id();
        match self.precheck_link(cid, EdgeKind::Ready, tid) {
            Err(e) => return Err(e),
            Ok(_) => {},
        }
        self.unlink_first(tid, Dir::Out, EdgeKind::Waiting);
        let ghost g1 = *self;
        proof {
            assert(g1@.live(tid));
        }
        if let Some(b) = self.body(t) {
            let mut nb: Thread = *b;
            nb.wait_aborted = 0;
            if nb.state == ThreadState::Inert {
                nb.state = ThreadState::Blocked;
            }
            self.write_body(t, nb);
        }
        let ghost g2 = *self;
        proof {
            assert(g2@ == g0@.wait_ended(tid));
            assert forall|n: NodeId| #[trigger] g2@.live(n) == g0@.live(n) by {
                assert(g1@.live(n) == g0@.live(n));
            }
            assert forall|n: NodeId| g0@.live(n) implies #[trigger] g2@.dying(n) == g0@.dying(
                n,
            ) by {
                assert(g1@.live(n) && g1@.dying(n) == g0@.dying(n));
            }
            g2.still_linkable(g0, cid, EdgeKind::Ready, tid);
        }
        self.make_ready(cpu, t)
    }

    /// The scheduler's pick-next: the head of the cpu's `Ready` list. One load.
    pub fn pick_next(&self, cpu: Ref<Cpu>) -> (r: Option<Ref<Thread>>)
        requires
            self.wf(),
        ensures
            r is Some <==> self@.queue_head(cpu.id()) is Some,
            r matches Some(t) ==> Some(t.id()) == self@.queue_head(cpu.id()) && self@.live(t.id()),
    {
        let cid = cpu.id();
        match self.first_out(cid, EdgeKind::Ready) {
            None => None,
            Some(e) => {
                proof {
                    crate::unlink::list_members_live(*self, cid, Dir::Out, EdgeKind::Ready);
                    assert(self@.edges.contains_key(e.idx()));
                    assert(self@.edge_ok(e.idx()));
                }
                match self.edge(e) {
                    None => None,
                    Some(x) => Some(Ref::from_raw(x.dst)),
                }
            },
        }
    }

    /// Round robin: move the queue head to the tail. Two splices, no allocation.
    pub fn rotate_ready(&mut self, cpu: Ref<Cpu>) -> (r: bool)
        requires
            old(self).wf(),
            old(self).seq < u64::MAX,
        ensures
            final(self).wf(),
            r <==> old(self)@.queue_head(cpu.id()) is Some,
            r ==> final(self)@ == old(self)@.rotate(cpu.id(), Dir::Out, EdgeKind::Ready),
            !r ==> *final(self) == *old(self),
            final(self)@.since(old(self)@),
    {
        let ghost g0 = *self;
        let cid = cpu.id();
        let head: u32 = self.list_head(cid, Dir::Out, EdgeKind::Ready);
        if head == 0 {
            proof {
                if self.spec_live(cid) {
                    crate::unlink::list_members_live(*self, cid, Dir::Out, EdgeKind::Ready);
                }
            }
            return false;
        }
        let ghost s = self@.list(cid, Dir::Out, EdgeKind::Ready);
        proof {
            crate::unlink::list_members_live(g0, cid, Dir::Out, EdgeKind::Ready);
            assert(s[0] == head);
            assert(s.contains(head));
            assert(s.index_of(head) == 0) by {
                assert(s[s.index_of(head)] == head);
            }
            assert(without(s, head) =~= s.drop_first());
        }
        let new: u32 = list_move_to_tail(&mut self.edges, head, head, Dir::Out);
        let ghost g1 = *self;
        self.set_list_head(cid, Dir::Out, EdgeKind::Ready, new);
        proof {
            assert forall|i: int| 0 <= i < s.len() implies (#[trigger] s[i]) < MAX_EDGES
                && g0.edges.slots@[s[i] as int].spec_is_live() by {
                assert(g0.edge_live(s[i]));
            }
            crate::link::relink_keeps_edges(g0.edges, self.edges, Dir::Out, s);
            crate::link::head_rewrite_keeps(*self, g1, cid, Dir::Out, EdgeKind::Ready, new);
            rotated_view(*self, g0, g1, cid, Dir::Out, EdgeKind::Ready);
        }
        let ghost g2 = *self;
        self.seq = self.seq + 1;
        proof {
            crate::create::same_memory_same_graph(*self, g2);
        }
        true
    }

    /// The queue head, with the queue advanced past it: the head of a circular
    /// list is only a name for where it starts.
    pub fn pick_and_rotate(&mut self, cpu: Ref<Cpu>) -> (r: Option<Ref<Thread>>)
        requires
            old(self).wf(),
            old(self).seq < u64::MAX,
        ensures
            final(self).wf(),
            r is Some <==> old(self)@.queue_head(cpu.id()) is Some,
            r matches Some(t) ==> Some(t.id()) == old(self)@.queue_head(cpu.id())
                && old(self)@.live(t.id()) && final(self)@ == old(self)@.rotate(
                cpu.id(),
                Dir::Out,
                EdgeKind::Ready,
            ),
            r is None ==> *final(self) == *old(self),
            final(self)@.since(old(self)@),
    {
        let ghost g0 = *self;
        let cid = cpu.id();
        let t = match self.pick_next(cpu) {
            Some(t) => t,
            None => return None,
        };
        let ghost s = self@.list(cid, Dir::Out, EdgeKind::Ready);
        proof {
            crate::unlink::list_members_live(g0, cid, Dir::Out, EdgeKind::Ready);
            assert(g0.edge_live(s[0]));
        }
        let head: u32 = self.list_head(cid, Dir::Out, EdgeKind::Ready);
        let new: u32 = self.edges.at(head).next(Dir::Out);
        proof {
            let next = nexts(g0.edges.slots@, Dir::Out);
            let prev = prevs(g0.edges.slots@, Dir::Out);
            let u = s.drop_first().push(s[0]);
            crate::ring::ring_rotate(next, prev, s);
            crate::ring::ring_is_list(next, prev, u);
            assert(next[s[0] as int] == s[crate::ring::succ(0, s.len() as int)]);
            assert(u[0] == new);
        }
        self.set_list_head(cid, Dir::Out, EdgeKind::Ready, new);
        proof {
            crate::link::head_rewrite_keeps(*self, g0, cid, Dir::Out, EdgeKind::Ready, new);
            rotated_view(*self, g0, g0, cid, Dir::Out, EdgeKind::Ready);
        }
        let ghost g2 = *self;
        self.seq = self.seq + 1;
        proof {
            crate::create::same_memory_same_graph(*self, g2);
        }
        Some(t)
    }

    /// The first thread waiting on an object in the given role, or none.
    /// This is rendezvous: the head of one list.
    pub fn first_waiter(&self, on: NodeId, role: WaitRole) -> (r: Option<Ref<Thread>>)
        requires
            self.wf(),
        ensures
            r is Some <==> exists|i: int| self@.first_waiting(on, role, i),
            r matches Some(t) ==> self@.live(t.id()) && exists|i: int| #[trigger]
                self@.first_waiting(on, role, i) && t.id() == self@.edges[self@.list(
                    on,
                    Dir::In,
                    EdgeKind::Waiting,
                )[i]].src,
    {
        let ghost s = self@.list_or_none(on, Dir::In, EdgeKind::Waiting);
        proof {
            if self.spec_live(on) {
                crate::unlink::list_members_live(*self, on, Dir::In, EdgeKind::Waiting);
            }
        }
        let mut it = self.walk_in(on, EdgeKind::Waiting).into_iter();
        let ghost all = self@.walk(on, Dir::In, EdgeKind::Waiting);
        let ghost mut n: int = 0;
        proof {
            assert(all.subrange(0, all.len() as int) =~= all);
        }
        loop
            invariant
                self.wf(),
                it.wf(),
                s == self@.list_or_none(on, Dir::In, EdgeKind::Waiting),
                all == self@.walk(on, Dir::In, EdgeKind::Waiting),
                0 <= n <= all.len(),
                it.remaining() == all.subrange(n, all.len() as int),
                forall|i: int| 0 <= i < s.len() ==> self.edge_live(#[trigger] s[i]),
                forall|j: int| 0 <= j < n ==> self@.waiting_role(#[trigger] s[j]) != role,
            ensures
                forall|j: int| 0 <= j < all.len() ==> self@.waiting_role(#[trigger] s[j]) != role,
            decreases all.len() - n,
        {
            match it.next() {
                None => {
                    break;
                },
                Some(eid) => {
                    proof {
                        assert(all.subrange(n, all.len() as int)[0] == all[n]);
                        assert(all.subrange(n, all.len() as int).drop_first() =~= all.subrange(
                            n + 1,
                            all.len() as int,
                        ));
                        assert(self.edge_live(s[n]));
                        assert(self@.edges.contains_key(s[n]));
                        assert(self@.edge_ok(s[n]));
                        assert(self.spec_live(on));
                        crate::unlink::list_members_live(*self, on, Dir::In, EdgeKind::Waiting);
                        crate::id::edge_id_round_trip(eid, s[n], self@.edges[s[n]].generation);
                    }
                    match self.edge(eid) {
                        None => {},
                        Some(e) => {
                            if WaitingAttr::decode(e.data).role == role {
                                assert(self@.first_waiting(on, role, n));
                                return Some(Ref::from_raw(e.src));
                            }
                        },
                    }
                    proof {
                        n = n + 1;
                    }
                },
            }
        }
        proof {
            if exists|i: int| self@.first_waiting(on, role, i) {
                let i = choose|i: int| self@.first_waiting(on, role, i);
                assert(self@.waiting_role(s[i]) != role);
            }
        }
        None
    }
}

/// A list read from its second member is the list rotated; nothing else in
/// the graph differs.
proof fn rotated_view(g: Graph, g0: Graph, g1: Graph, id: NodeId, dir: Dir, kind: EdgeKind)
    requires
        g0.wf(),
        g0.spec_live(id),
        g0@.list(id, dir, kind).len() > 0,
        relinked(g0.edges.slots@, g.edges.slots@, dir, g0@.list(id, dir, kind)),
        g.edges.wf(),
        g.edges.books().stock() == g0.edges.books().stock(),
        g.edges.is_ring(g.hdr(id).spec_head(dir, kind), dir),
        g.edges.list(g.hdr(id).spec_head(dir, kind), dir) == g0@.list(id, dir, kind).drop_first().push(
            g0@.list(id, dir, kind)[0],
        ),
        g.seq == g0.seq,
        g.dying_head == g0.dying_head,
        g.root_id == g0.root_id,
        forall|n: NodeId| g0.spec_live(n) == #[trigger] g1.spec_live(n),
        forall|n: NodeId| #[trigger] g1.cell_at(n) == g0.cell_at(n),
        forall|k: NodeKind| #[trigger] g1.books(k) == g0.books(k),
        forall|k: NodeKind| #[trigger] g.books(k) == g1.books(k),
        forall|n: NodeId| #[trigger] g.spec_live(n) == g1.spec_live(n),
        forall|n: NodeId| #[trigger]
            g1.spec_live(n) ==> {
                &&& g.cell_at(n).body == g1.cell_at(n).body
                &&& g.hdr(n).kind == g1.hdr(n).kind
                &&& g.hdr(n).flags == g1.hdr(n).flags
                &&& g.hdr(n).next_dying == g1.hdr(n).next_dying
                &&& g.hdr(n).owner == g1.hdr(n).owner
            },
        forall|n: NodeId, d: Dir, k: EdgeKind|
            g1.spec_live(n) && !(n == id && d == dir && k == kind) ==> #[trigger] g.hdr(
                n,
            ).spec_head(d, k) == g1.hdr(n).spec_head(d, k),
    ensures
        g.wf(),
        g@ == g0@.with_list(
            (id, dir, kind),
            g0@.list(id, dir, kind).drop_first().push(g0@.list(id, dir, kind)[0]),
        ),
{
    let key0: ListKey = (id, dir, kind);
    let s0 = g0@.lists[key0];
    let t0 = s0.drop_first().push(s0[0]);
    let (v, v0) = (g@, g0@);
    let w = v0.with_list(key0, t0);
    let (e0, e3) = (g0.edges, g.edges);
    crate::unlink::list_members_live(g0, id, dir, kind);
    assert forall|n: NodeId| #[trigger] g.spec_live(n) == g0.spec_live(n) by {
        assert(g.spec_live(n) == g1.spec_live(n));
    }
    assert forall|e: u32| e < MAX_EDGES implies ({
        let (a, b) = (e0.slots@[e as int], #[trigger] e3.slots@[e as int]);
        &&& b.src == a.src
        &&& b.dst == a.dst
        &&& b.kind == a.kind
        &&& b.data == a.data
        &&& b.generation == a.generation
    }) by {}
    assert(v.edges.dom() =~= w.edges.dom()) by {
        assert forall|e: u32| v.edges.contains_key(e) <==> w.edges.contains_key(e) by {
            if e < MAX_EDGES {
                assert(e3.slots@[e as int].generation == e0.slots@[e as int].generation);
            }
        }
    }
    assert forall|e: u32| v.edges.contains_key(e) implies v.edges[e] == w.edges[e] by {
        assert(e3.slots@[e as int].generation == e0.slots@[e as int].generation);
    }
    assert(v.edges =~= w.edges);
    assert(v.nodes.dom() =~= w.nodes.dom());
    assert forall|n: NodeId| v.nodes.contains_key(n) implies v.nodes[n] == w.nodes[n] by {
        assert(g1.spec_live(n));
        assert(g1.cell_at(n) == g0.cell_at(n));
    }
    assert(v.nodes =~= w.nodes);
    assert forall|key: ListKey| g0.spec_live(key.0) implies #[trigger] g.edges.is_ring(
        g.hdr(key.0).spec_head(key.1, key.2),
        key.1,
    ) && g.edges.list(g.hdr(key.0).spec_head(key.1, key.2), key.1) == w.lists[key] by {
        let head = g.hdr(key.0).spec_head(key.1, key.2);
        crate::unlink::list_members_live(g0, key.0, key.1, key.2);
        if key != key0 {
            let s = v0.lists[key];
            assert(g1.spec_live(key.0));
            assert(g1.cell_at(key.0) == g0.cell_at(key.0));
            assert(head == g1.hdr(key.0).spec_head(key.1, key.2));
            assert forall|i: int| 0 <= i < s.len() implies ({
                let m = #[trigger] s[i];
                e3.slots@[m as int].spec_next(key.1) == e0.slots@[m as int].spec_next(key.1)
                    && e3.slots@[m as int].spec_prev(key.1) == e0.slots@[m as int].spec_prev(key.1)
            }) by {
                let m = s[i];
                assert(g0.edge_live(m));
                assert(v0.edges[m].kind == key.2 && v0.edges[m].endpoint(key.1) == key.0);
                if key.1 == dir {
                    assert(!s0.contains(m)) by {
                        if s0.contains(m) {
                            let j = choose|j: int| 0 <= j < s0.len() && s0[j] == m;
                            assert(v0.edges[s0[j]].kind == key0.2);
                        }
                    }
                    assert(e3.slots@[m as int] == e0.slots@[m as int]);
                } else {
                    assert(e3.slots@[m as int] == e0.slots@[m as int].with_next(
                        dir,
                        e3.slots@[m as int].spec_next(dir),
                    ).with_prev(dir, e3.slots@[m as int].spec_prev(dir)));
                }
            }
            crate::link::list_frame(e0, e3, head, key.1);
        }
    }
    assert(v.lists.dom() =~= w.lists.dom());
    assert forall|key: ListKey| v.lists.contains_key(key) implies v.lists[key] == w.lists[key] by {
        assert(g0.spec_live(key.0));
        assert(g.edges.is_ring(g.hdr(key.0).spec_head(key.1, key.2), key.1));
    }
    assert(v.lists =~= w.lists);
    assert(g.rings_ok()) by {
        assert forall|n: NodeId, d: Dir, k: EdgeKind|
            g.spec_live(n) implies #[trigger] g.edges.is_ring(g.hdr(n).spec_head(d, k), d) by {
            let key: ListKey = (n, d, k);
            assert(g0.spec_live(key.0));
            assert(g.edges.is_ring(g.hdr(key.0).spec_head(key.1, key.2), key.1));
        }
    }
    assert(g.headers_ok()) by {
        assert forall|n: NodeId| #[trigger] g.spec_live(n) implies g.hdr(n).kind
            == n.kind_raw() by {
            assert(g0.spec_live(n));
            assert(g1.spec_live(n));
            assert(g1.cell_at(n) == g0.cell_at(n));
        }
    }
    assert(g.edge_kinds_ok()) by {
        assert forall|e: u32| #[trigger]
            g.edge_live(e) implies g.edges.slots@[e as int].spec_edge_kind() is Some by {
            assert(e3.slots@[e as int].generation == e0.slots@[e as int].generation);
            assert(g0.edge_live(e));
        }
    }
    assert forall|k: NodeKind| #[trigger] g.books(k).wf() by {
        assert(g.books(k) == g1.books(k));
        assert(g1.books(k) == g0.books(k));
        assert(g0.books(k).wf());
    }
    assert(v.node_stock =~= w.node_stock) by {
        assert forall|k: NodeKind| v.node_stock[k] == w.node_stock[k] by {
            assert(g.books(k) == g1.books(k));
            assert(g1.books(k) == g0.books(k));
        }
    }
    rotate_wf(v0, key0);
}

/// Rotating a list keeps the view well formed.
pub proof fn rotate_wf(v: GraphView, key: ListKey)
    requires
        v.wf(),
        v.lists.contains_key(key),
        v.lists[key].len() > 0,
    ensures
        v.with_list(key, v.lists[key].drop_first().push(v.lists[key][0])).wf(),
{
    let s = v.lists[key];
    let t = s.drop_first().push(s[0]);
    let w = v.with_list(key, t);
    let n = s.len() as int;
    assert(v.list_ok(key));
    assert forall|i: int| 0 <= i < n implies #[trigger] t[i] == s[crate::ring::succ(i, n)] by {}
    assert forall|k: ListKey| #[trigger] w.lists.contains_key(k) <==> w.nodes.contains_key(
        k.0,
    ) by {
        assert(v.lists.contains_key(k) <==> v.nodes.contains_key(k.0));
    }
    assert forall|k: ListKey| #[trigger] w.lists.contains_key(k) implies w.list_ok(k) by {
        if k == key {
            assert forall|i: int| 0 <= i < t.len() implies w.edges.contains_key(#[trigger] t[i])
                && w.edges[t[i]].kind == k.2 && w.edges[t[i]].endpoint(k.1) == k.0 by {
                assert(t[i] == s[crate::ring::succ(i, n)]);
                assert(v.edges.contains_key(s[crate::ring::succ(i, n)]));
            }
            assert forall|i: int, j: int| 0 <= i < n && 0 <= j < n && i != j implies t[i]
                != t[j] by {
                assert(s[crate::ring::succ(i, n)] != s[crate::ring::succ(j, n)]);
            }
        } else {
            assert(v.lists.contains_key(k));
            assert(v.list_ok(k));
        }
    }
    assert forall|x: u32| s.contains(x) implies t.contains(x) by {
        let j = choose|j: int| 0 <= j < s.len() && s[j] == x;
        assert(t[crate::ring::pred(j, n)] == s[crate::ring::succ(crate::ring::pred(j, n), n)]);
    }
    assert forall|e: u32| #[trigger] w.edges.contains_key(e) implies w.edge_ok(e) by {
        assert(v.edges.contains_key(e));
        assert(v.edge_ok(e));
    }
    assert forall|m: NodeId| #[trigger] w.nodes.contains_key(m) implies w.node_ok(m) by {
        assert(v.nodes.contains_key(m));
        assert(v.node_ok(m));
    }
}

} // verus!

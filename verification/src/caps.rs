//! Capabilities: a `Holds` edge per capability, and the handle table that
//! makes finding one constant-time.

use vstd::prelude::*;

use crate::body::{Body, Holdable, NodeBody, Process, Rights};
use crate::edge::{EdgeAttr, HoldsAttr};
use crate::graph::{Graph, GraphError, Ref, Result};
use crate::id::{EdgeId, EdgeKind, NodeId};
use crate::limits::{HANDLE_SLOTS, MAX_EDGES};
use crate::view::GraphView;

verus! {

impl Process {
    /// The slot looked at after `off` others, going round from the hint. Slot
    /// 0 is the null handle and is passed over.
    pub open spec fn slot_after(self, off: int) -> int {
        let start = if self.next_slot_hint == 0 {
            0
        } else {
            self.next_slot_hint - 1
        };
        1 + (start + off) % 255
    }

    /// `off` slots were taken before the first empty one.
    pub open spec fn first_empty(self, off: int) -> bool {
        &&& 0 <= off < 255
        &&& self.handles@[self.slot_after(off)] == 0
        &&& forall|o: int| 0 <= o < off ==> self.handles@[#[trigger] self.slot_after(o)] != 0
    }

    /// The slot the next capability will take.
    pub open spec fn free_slot(self) -> Option<u32> {
        if exists|off: int| self.first_empty(off) {
            Some(self.slot_after(choose|off: int| self.first_empty(off)) as u32)
        } else {
            None
        }
    }

    /// The table once slot `slot` answers to edge `e`.
    pub open spec fn with_capability(self, slot: u32, e: u32) -> Process {
        Process { next_slot_hint: (slot + 1) as u32, ..self.with_handle(slot as int, e) }
    }
}

/// Going round from the hint passes every slot but the null handle.
pub proof fn search_reaches_every_slot(p: Process, slot: int)
    requires
        1 <= slot < HANDLE_SLOTS,
    ensures
        exists|off: int| 0 <= off < 255 && #[trigger] p.slot_after(off) == slot,
{
    let start = if p.next_slot_hint == 0 {
        0
    } else {
        p.next_slot_hint - 1
    };
    let off = (slot - 1 - start) % 255;
    assert((start + off) % 255 == slot - 1) by (nonlinear_arith)
        requires
            off == (slot - 1 - start) % 255,
            1 <= slot < 256,
    ;
    assert(p.slot_after(off) == slot);
}

/// There is no free slot exactly when every slot is taken.
pub proof fn no_free_slot_means_full(p: Process)
    ensures
        p.free_slot() is None <==> forall|s: int|
            1 <= s < HANDLE_SLOTS ==> #[trigger] p.handles@[s] != 0,
        p.free_slot() matches Some(s) ==> 1 <= s < HANDLE_SLOTS && p.handles@[s as int] == 0,
{
    if p.free_slot() is None {
        assert forall|s: int| 1 <= s < HANDLE_SLOTS implies #[trigger] p.handles@[s] != 0 by {
            search_reaches_every_slot(p, s);
            let off = choose|off: int| 0 <= off < 255 && #[trigger] p.slot_after(off) == s;
            if p.handles@[s] == 0 {
                first_empty_exists(p, off);
            }
        }
    } else {
        let off = choose|off: int| p.first_empty(off);
        assert(p.first_empty(off));
        assert(1 <= p.slot_after(off) < HANDLE_SLOTS);
    }
}

/// If some slot on the way is empty, one is the first.
proof fn first_empty_exists(p: Process, off: int)
    requires
        0 <= off < 255,
        p.handles@[p.slot_after(off)] == 0,
    ensures
        exists|o: int| p.first_empty(o),
    decreases off,
{
    if exists|o: int| 0 <= o < off && p.handles@[#[trigger] p.slot_after(o)] == 0 {
        let o = choose|o: int| 0 <= o < off && p.handles@[#[trigger] p.slot_after(o)] == 0;
        first_empty_exists(p, o);
    } else {
        assert(p.first_empty(off));
    }
}

impl GraphView {
    /// What a slot of a process resolves to, and why it does not.
    pub open spec fn resolution(self, holder: NodeId, slot: u32, need: Rights) -> Result<NodeId> {
        if slot == 0 || slot >= HANDLE_SLOTS {
            Err(GraphError::EmptySlot(slot))
        } else if !self.live(holder) {
            Err(GraphError::StaleNode(holder))
        } else {
            let e = self.process(holder).handles@[slot as int];
            if e == 0 || !self.edges.contains_key(e) || self.edges[e].kind != EdgeKind::Holds
                || self.edges[e].src != holder {
                Err(GraphError::EmptySlot(slot))
            } else if !self.holds(e).rights.spec_contains(need) {
                Err(GraphError::MissingRights { have: self.holds(e).rights, need })
            } else if self.dying(self.edges[e].dst) {
                Err(GraphError::Dying(self.edges[e].dst))
            } else {
                Ok(self.edges[e].dst)
            }
        }
    }

    /// The rights a slot of a process carries.
    pub open spec fn slot_rights(self, holder: NodeId, slot: u32) -> Option<Rights> {
        if !self.live(holder) || slot >= HANDLE_SLOTS {
            None
        } else {
            let e = self.process(holder).handles@[slot as int];
            if e == 0 || !self.edges.contains_key(e) || self.edges[e].kind != EdgeKind::Holds {
                None
            } else {
                Some(self.holds(e).rights)
            }
        }
    }

    /// A capability installed: one edge, and one entry in the handle table.
    pub open spec fn granted(
        self,
        holder: NodeId,
        target: NodeId,
        rights: Rights,
        slot: u32,
        e: EdgeId,
    ) -> GraphView {
        self.link(
            holder,
            EdgeKind::Holds,
            target,
            (HoldsAttr { rights, slot }).spec_bytes(),
            e.idx(),
            e.generation(),
        ).with_body(holder, Body::Process(self.process(holder).with_capability(slot, e.idx())))
    }
}

impl Graph {
    /// Why a capability could not be installed, if it could not.
    pub open spec fn grant_refusal(self, holder: NodeId, target: NodeId) -> Option<GraphError> {
        if !self@.live(holder) {
            Some(GraphError::StaleNode(holder))
        } else if self@.process(holder).free_slot() is None {
            Some(GraphError::NoFreeSlot)
        } else {
            self.link_refusal(holder, EdgeKind::Holds, target)
        }
    }

    /// What installing a capability does: all of it, or none of it.
    pub open spec fn capability_granted(
        self,
        o: Graph,
        holder: NodeId,
        target: NodeId,
        rights: Rights,
        r: Result<u32>,
    ) -> bool {
        match o.grant_refusal(holder, target) {
            Some(e) => r == Err::<u32, GraphError>(e) && self == o,
            None => {
                let slot = o@.process(holder).free_slot()->Some_0;
                let e = o.next_edge();
                &&& r == Ok::<u32, GraphError>(slot)
                &&& !o@.edges.contains_key(e.idx())
                &&& 0 < e.idx() < MAX_EDGES
                &&& self@ == o@.granted(holder, target, rights, slot, e)
            },
        }
    }

    fn find_free_slot(&self, p: Ref<Process>) -> (r: Result<u32>)
        requires
            self.wf(),
        ensures
            !self@.live(p.id()) ==> r == Err::<u32, GraphError>(GraphError::StaleNode(p.id())),
            self@.live(p.id()) ==> match self@.process(p.id()).free_slot() {
                Some(s) => r == Ok::<u32, GraphError>(s) && 1 <= s < HANDLE_SLOTS,
                None => r == Err::<u32, GraphError>(GraphError::NoFreeSlot),
            },
    {
        let id = p.id();
        let b = match self.body(p) {
            Some(b) => b,
            None => return Err(GraphError::StaleNode(id)),
        };
        proof {
            no_free_slot_means_full(*b);
        }
        // Slot 0 is reserved as the null handle.
        let start: u64 = if b.next_slot_hint == 0 {
            0
        } else {
            b.next_slot_hint as u64 - 1
        };
        let mut off: u64 = 0;
        while off < 255
            invariant
                off <= 255,
                start == if b.next_slot_hint == 0 {
                    0
                } else {
                    b.next_slot_hint - 1
                },
                forall|o: int| 0 <= o < off ==> b.handles@[#[trigger] b.slot_after(o)] != 0,
                self@.live(id),
                id == p.id(),
                *b == self@.process(id),
            decreases 255 - off,
        {
            let s: usize = 1 + ((start + off) % 255) as usize;
            assert(s == b.slot_after(off as int));
            if b.handles[s] == 0 {
                proof {
                    assert(b.first_empty(off as int));
                    let o = choose|o: int| b.first_empty(o);
                    assert(b.first_empty(o));
                    if o < off {
                        assert(b.handles@[b.slot_after(o)] != 0);
                    } else if off < o {
                        assert(b.handles@[b.slot_after(off as int)] != 0);
                    }
                    no_free_slot_means_full(*b);
                }
                return Ok(s as u32);
            }
            off = off + 1;
        }
        proof {
            if exists|o: int| b.first_empty(o) {
                let o = choose|o: int| b.first_empty(o);
                assert(b.handles@[b.slot_after(o)] != 0);
            }
        }
        Err(GraphError::NoFreeSlot)
    }

    /// Install a capability in the target process's handle table and return its
    /// slot. This is the only way a `Holds` edge is created, which is what
    /// keeps the table and the edges two views of one thing.
    pub fn grant<B: Holdable>(&mut self, holder: Ref<Process>, target: Ref<B>, rights: Rights) -> (r:
        Result<u32>)
        requires
            old(self).wf(),
            old(self).seq < u64::MAX,
        ensures
            final(self).wf(),
            final(self).capability_granted(*old(self), holder.id(), target.id(), rights, r),
            old(self)@.live(holder.id()) ==> (r == Err::<u32, GraphError>(GraphError::NoFreeSlot)
                <==> forall|s: int|
                1 <= s < HANDLE_SLOTS ==> #[trigger] old(self)@.process(holder.id()).handles@[s]
                    != 0),
            final(self)@.since(old(self)@),
    {
        self.grant_raw(holder, target.id(), rights)
    }

    /// The same, for a target whose type is not known until run time.
    pub fn grant_raw(&mut self, holder: Ref<Process>, target: NodeId, rights: Rights) -> (r: Result<
        u32,
    >)
        requires
            old(self).wf(),
            old(self).seq < u64::MAX,
        ensures
            final(self).wf(),
            final(self).capability_granted(*old(self), holder.id(), target, rights, r),
            old(self)@.live(holder.id()) ==> (r == Err::<u32, GraphError>(GraphError::NoFreeSlot)
                <==> forall|s: int|
                1 <= s < HANDLE_SLOTS ==> #[trigger] old(self)@.process(holder.id()).handles@[s]
                    != 0),
            final(self)@.since(old(self)@),
    {
        let ghost g0 = *self;
        let id = holder.id();
        proof {
            no_free_slot_means_full(g0@.process(id));
        }
        let slot: u32 = match self.find_free_slot(holder) {
            Ok(s) => s,
            Err(e) => return Err(e),
        };
        let attr = HoldsAttr { rights, slot };
        let e = match self.link_raw(id, EdgeKind::Holds, target, attr.encode()) {
            Ok(e) => e,
            Err(e) => return Err(e),
        };
        let ghost g1 = *self;
        match self.body(holder) {
            None => Err(GraphError::StaleNode(id)),
            Some(b) => {
                let mut nb: Process = *b;
                let ghost p0 = nb;
                proof {
                    assert(g1@.nodes.contains_key(id));
                    assert(g1@.node_ok(id));
                }
                nb.handles[slot as usize] = e.idx();
                nb.next_slot_hint = slot + 1;
                proof {
                    crate::view::array_of_view(nb.handles);
                    assert(nb.handles@ =~= p0.handles@.update(slot as int, e.idx()));
                    assert(nb == p0.with_capability(slot, e.idx()));
                }
                self.write_body(holder, nb);
                Ok(slot)
            },
        }
    }

    /// The syscall fast path: handle slot to object, with a rights check. No
    /// traversal.
    pub fn resolve(&self, holder: Ref<Process>, slot: u32, need: Rights) -> (r: Result<NodeId>)
        requires
            self.wf(),
        ensures
            r == self@.resolution(holder.id(), slot, need),
            r matches Ok(id) ==> self@.live(id),
    {
        if slot == 0 || slot as usize >= HANDLE_SLOTS {
            return Err(GraphError::EmptySlot(slot));
        }
        let id = holder.id();
        let p = match self.body(holder) {
            Some(b) => b,
            None => return Err(GraphError::StaleNode(id)),
        };
        let ei: u32 = p.handles[slot as usize];
        if ei == 0 {
            return Err(GraphError::EmptySlot(slot));
        }
        proof {
            assert(self@.nodes.contains_key(id));
            assert(self@.node_ok(id));
        }
        let e = self.edges.at(ei);
        proof {
            if self.edge_live(ei) {
                assert(self@.edges.contains_key(ei));
                assert(self@.edge_ok(ei));
            }
        }
        if !e.is_live() || e.kind != EdgeKind::Holds.code() || e.src != id {
            return Err(GraphError::EmptySlot(slot));
        }
        let attr = HoldsAttr::decode(e.data);
        if !attr.rights.contains(need) {
            return Err(GraphError::MissingRights { have: attr.rights, need });
        }
        let dst = e.dst;
        match self.header(dst) {
            None => Err(GraphError::StaleNode(dst)),
            Some(h) => {
                if h.is_dying() {
                    Err(GraphError::Dying(dst))
                } else {
                    Ok(dst)
                }
            },
        }
    }

    /// Rights currently held on a slot, without resolving the target.
    pub fn rights_of(&self, holder: Ref<Process>, slot: u32) -> (r: Option<Rights>)
        requires
            self.wf(),
        ensures
            r == self@.slot_rights(holder.id(), slot),
    {
        let id = holder.id();
        let p = match self.body(holder) {
            Some(b) => b,
            None => return None,
        };
        if slot as usize >= HANDLE_SLOTS {
            return None;
        }
        let ei: u32 = p.handles[slot as usize];
        if ei == 0 {
            return None;
        }
        proof {
            assert(self@.nodes.contains_key(id));
            assert(self@.node_ok(id));
            if self.edge_live(ei) {
                assert(self@.edges.contains_key(ei));
                assert(self@.edge_ok(ei));
            }
        }
        let e = self.edges.at(ei);
        if !e.is_live() || e.kind != EdgeKind::Holds.code() {
            return None;
        }
        Some(HoldsAttr::decode(e.data).rights)
    }

    /// Why a slot could not be revoked, if it could not.
    pub open spec fn revoke_refusal(self, holder: NodeId, slot: u32) -> Option<GraphError> {
        if !self@.live(holder) {
            Some(GraphError::StaleNode(holder))
        } else if slot >= HANDLE_SLOTS || self@.process(holder).handles@[slot as int] == 0 {
            Some(GraphError::EmptySlot(slot))
        } else {
            let e = self@.process(holder).handles@[slot as int];
            if !self@.edges.contains_key(e) {
                Some(
                    GraphError::StaleEdge(
                        EdgeId::spec_new(e, self.edges.slots@[e as int].generation),
                    ),
                )
            } else {
                None
            }
        }
    }

    /// Give up the capability in a slot.
    pub fn revoke(&mut self, holder: Ref<Process>, slot: u32) -> (r: Result<()>)
        requires
            old(self).wf(),
            old(self).seq < u64::MAX,
        ensures
            final(self).wf(),
            match old(self).revoke_refusal(holder.id(), slot) {
                Some(e) => r == Err::<(), GraphError>(e) && *final(self) == *old(self),
                None => r == Ok::<(), GraphError>(()) && final(self)@ == old(self)@.unlink(
                    old(self)@.process(holder.id()).handles@[slot as int],
                ),
            },
            final(self)@.since(old(self)@),
    {
        let id = holder.id();
        let p = match self.body(holder) {
            Some(b) => b,
            None => return Err(GraphError::StaleNode(id)),
        };
        if slot as usize >= HANDLE_SLOTS {
            return Err(GraphError::EmptySlot(slot));
        }
        let ei: u32 = p.handles[slot as usize];
        if ei == 0 {
            return Err(GraphError::EmptySlot(slot));
        }
        proof {
            assert(self@.nodes.contains_key(id));
            assert(self@.node_ok(id));
        }
        let g: u32 = self.edges.at(ei).generation;
        self.unlink(EdgeId::new(ei, g))
    }

    /// Copy a capability into another process with reduced rights. The whole of
    /// capability transfer is one edge creation.
    pub fn copy_cap(&mut self, from: Ref<Process>, slot: u32, to: Ref<Process>, mask: Rights) -> (r:
        Result<u32>)
        requires
            old(self).wf(),
            old(self).seq < u64::MAX,
        ensures
            final(self).wf(),
            match old(self)@.resolution(from.id(), slot, Rights(0)) {
                Err(e) => r == Err::<u32, GraphError>(e) && *final(self) == *old(self),
                Ok(target) => final(self).capability_granted(
                    *old(self),
                    to.id(),
                    target,
                    old(self)@.slot_rights(from.id(), slot)->Some_0.spec_intersect(mask),
                    r,
                ),
            },
            final(self)@.since(old(self)@),
    {
        let target = match self.resolve(from, slot, Rights::none()) {
            Ok(t) => t,
            Err(e) => return Err(e),
        };
        let have = match self.rights_of(from, slot) {
            Some(h) => h,
            None => return Err(GraphError::EmptySlot(slot)),
        };
        let rights = have.intersect(mask);
        self.grant_raw(to, target, rights)
    }
}

} // verus!

//! Slab arenas with generational slots, and the adjacency lists threaded
//! through the edge arena.
//!
//! A single `slot.generation == id.generation` compare validates both identity
//! and liveness, and zeroed memory is a valid empty slab.

use vstd::prelude::*;

use crate::arena::{Books, Stock, RETIRE_AT};
use crate::body::NodeBody;
use crate::edge::{Dir, Edge};
use crate::id::{EdgeKind, NodeId};
use crate::limits::{MAX_EDGES, N_EDGE_KINDS};

verus! {

pub const FLAG_DYING: u8 = 1;

pub const FLAG_PINNED: u8 = 2;

/// The per-node bookkeeping shared by every node kind.
///
/// The per-kind list heads are what buy constant-time typed adjacency: "first
/// `Ready` out-edge of this cpu" is one array load, not a scan.
#[derive(Clone, Copy, Debug, PartialEq, Eq)]
pub struct NodeHeader {
    pub out_head: [u32; N_EDGE_KINDS],
    pub in_head: [u32; N_EDGE_KINDS],
    /// Hot-hop cache of the `Owns` in-edge's source.
    pub owner: NodeId,
    /// Intrusive link for the reaper's pending-deletion list.
    pub next_dying: NodeId,
    pub kind: u8,
    pub flags: u8,
}

impl NodeHeader {
    /// A header with no edges, no owner and no flags.
    pub open spec fn blank(kind: u8) -> NodeHeader {
        NodeHeader {
            out_head: vstd::array::spec_array_fill_for_copy_type::<u32, N_EDGE_KINDS>(0),
            in_head: vstd::array::spec_array_fill_for_copy_type::<u32, N_EDGE_KINDS>(0),
            owner: NodeId(0),
            next_dying: NodeId(0),
            kind,
            flags: 0,
        }
    }

    pub fn zero() -> (r: NodeHeader)
        ensures
            r == NodeHeader::blank(0),
    {
        NodeHeader {
            out_head: [0;N_EDGE_KINDS],
            in_head: [0;N_EDGE_KINDS],
            owner: NodeId(0),
            next_dying: NodeId(0),
            kind: 0,
            flags: 0,
        }
    }

    pub open spec fn spec_is_dying(self) -> bool {
        self.flags & FLAG_DYING != 0
    }

    pub fn is_dying(&self) -> (r: bool)
        ensures
            r == self.spec_is_dying(),
    {
        self.flags & FLAG_DYING != 0
    }

    pub open spec fn spec_head(self, dir: Dir, kind: EdgeKind) -> u32 {
        match dir {
            Dir::Out => self.out_head@[kind.spec_code() as int],
            Dir::In => self.in_head@[kind.spec_code() as int],
        }
    }

    pub fn head(&self, dir: Dir, kind: EdgeKind) -> (r: u32)
        ensures
            r == self.spec_head(dir, kind),
    {
        match dir {
            Dir::Out => self.out_head[kind.code() as usize],
            Dir::In => self.in_head[kind.code() as usize],
        }
    }

    /// `self` is `old` with one list head replaced.
    pub open spec fn with_head(self, old: NodeHeader, dir: Dir, kind: EdgeKind, v: u32) -> bool {
        &&& self.owner == old.owner
        &&& self.next_dying == old.next_dying
        &&& self.kind == old.kind
        &&& self.flags == old.flags
        &&& forall|d: Dir, k: EdgeKind| #[trigger]
            self.spec_head(d, k) == if d == dir && k == kind {
                v
            } else {
                old.spec_head(d, k)
            }
    }

    pub fn set_head(&mut self, dir: Dir, kind: EdgeKind, v: u32)
        ensures
            final(self).with_head(*old(self), dir, kind, v),
    {
        match dir {
            Dir::Out => self.out_head[kind.code() as usize] = v,
            Dir::In => self.in_head[kind.code() as usize] = v,
        }
    }

    pub open spec fn spec_is_isolated(self) -> bool {
        forall|d: Dir, k: EdgeKind| #[trigger] self.spec_head(d, k) == 0
    }

    /// True if the node has no incident edges at all.
    pub fn is_isolated(&self) -> (r: bool)
        ensures
            r == self.spec_is_isolated(),
    {
        let mut i: usize = 0;
        while i < N_EDGE_KINDS
            invariant
                i <= N_EDGE_KINDS,
                forall|j: int| 0 <= j < i ==> self.out_head@[j] == 0 && self.in_head@[j] == 0,
            decreases N_EDGE_KINDS - i,
        {
            if self.out_head[i] != 0 || self.in_head[i] != 0 {
                proof {
                    let k = EdgeKind::spec_from_u8(i as u8)->Some_0;
                    assert(self.spec_head(Dir::Out, k) != 0 || self.spec_head(Dir::In, k) != 0);
                }
                return false;
            }
            i = i + 1;
        }
        true
    }
}

pub struct Slot<B> {
    pub generation: u32,
    /// Free-list link, stored as index+1 so that zero means "end of list".
    pub next_free: u32,
    pub hdr: NodeHeader,
    pub body: B,
}

impl<B: Copy> Clone for Slot<B> {
    fn clone(&self) -> (r: Self)
        ensures
            r == *self,
    {
        *self
    }
}

impl<B: Copy> Copy for Slot<B> {

}

impl<B: NodeBody> Slot<B> {
    pub fn zero() -> (r: Slot<B>)
        ensures
            r.generation == 0,
            r.next_free == 0,
            r.hdr == NodeHeader::blank(0),
            r.body == B::spec_zero(),
    {
        Slot { generation: 0, next_free: 0, hdr: NodeHeader::zero(), body: B::zero() }
    }

    pub open spec fn spec_is_live(self) -> bool {
        crate::arena::is_odd(self.generation)
    }

    pub fn is_live(&self) -> (r: bool)
        ensures
            r == self.spec_is_live(),
    {
        self.generation % 2 == 1
    }
}

pub struct Slab<B: NodeBody, const N: usize> {
    pub slots: [Slot<B>; N],
    /// Head of the free list, as index+1.
    pub free_head: u32,
    /// Next never-used index.
    pub bump: u32,
    pub live: u32,
    pub retired: u32,
}

impl<B: NodeBody, const N: usize> Slab<B, N> {
    pub open spec fn books(self) -> Books {
        Books {
            gens: self.slots@.map_values(|s: Slot<B>| s.generation),
            next: self.slots@.map_values(|s: Slot<B>| s.next_free),
            free_head: self.free_head,
            bump: self.bump,
            live: self.live,
            retired: self.retired,
            base: 0,
        }
    }

    pub open spec fn wf(self) -> bool {
        self.books().wf()
    }

    /// The slot that `(idx, generation)` names, if it is live.
    pub open spec fn names(self, idx: u32, generation: u32) -> bool {
        &&& idx < N
        &&& crate::arena::is_odd(generation)
        &&& self.slots@[idx as int].generation == generation
    }

    pub fn zero() -> (r: Slab<B, N>)
        requires
            N <= 0x100_0000,
        ensures
            r.wf(),
            forall|i: int| 0 <= i < N ==> (#[trigger] r.slots@[i]).generation == 0,
            r.live == 0,
            r.retired == 0,
            r.free_head == 0,
            r.bump == 0,
            r.books().free() == Seq::<u32>::empty(),
            r.books().stock() == Stock::blank(N as nat, 0),
    {
        let r = Slab { slots: [Slot::zero();N], free_head: 0, bump: 0, live: 0, retired: 0 };
        proof {
            crate::arena::blank_books(r.books());
        }
        r
    }

    pub fn capacity(&self) -> (r: u32)
        requires
            N <= 0x100_0000,
        ensures
            r == N,
    {
        N as u32
    }

    pub fn live_count(&self) -> (r: u32)
        ensures
            r == self.live,
            self.wf() ==> r == crate::arena::count_live(self.books().gens),
    {
        self.live
    }

    pub fn retired_count(&self) -> (r: u32)
        ensures
            r == self.retired,
    {
        self.retired
    }

    /// Allocate a slot and return its index and new generation.
    pub fn allocate(&mut self, body: B) -> (r: Option<(u32, u32)>)
        requires
            old(self).wf(),
        ensures
            final(self).wf(),
            old(self).books().full() ==> r is None && *final(self) == *old(self),
            !old(self).books().full() ==> ({
                let i = old(self).books().next_index();
                let g = (old(self).slots@[i as int].generation + 1) as u32;
                &&& r == Some((i, g))
                &&& i < N
                &&& crate::arena::is_odd(g)
                &&& g == old(self).slots@[i as int].generation + 1
                &&& final(self).books() == old(self).books().after_alloc()
                &&& final(self).slots@ == old(self).slots@.update(
                    i as int,
                    Slot {
                        generation: g,
                        next_free: 0,
                        hdr: NodeHeader::blank(B::spec_kind().spec_code()),
                        body,
                    },
                )
            }),
    {
        proof {
            if !self.books().full() {
                crate::arena::alloc_keeps_books(self.books());
            }
        }
        let idx: u32 = if self.free_head != 0 {
            let idx: u32 = self.free_head - 1;
            self.free_head = self.slots[idx as usize].next_free;
            idx
        } else if (self.bump as usize) < N {
            let idx: u32 = self.bump;
            self.bump = self.bump + 1;
            idx
        } else {
            return None;
        };
        let generation: u32 = self.slots[idx as usize].generation + 1;
        let mut hdr = NodeHeader::zero();
        hdr.kind = B::kind().code();
        self.slots[idx as usize] = Slot { generation, next_free: 0, hdr, body };
        self.live = self.live + 1;
        proof {
            assert(self.books().gens =~= old(self).books().after_alloc().gens);
            assert(self.books().next =~= old(self).books().after_alloc().next);
        }
        Some((idx, generation))
    }

    /// Free a slot. The generation is bumped, so every outstanding id to the
    /// old occupant fails its compare from this instant.
    pub fn free(&mut self, idx: u32)
        requires
            old(self).wf(),
            idx < N,
            old(self).slots@[idx as int].spec_is_live(),
        ensures
            final(self).wf(),
            final(self).books() == old(self).books().after_free(idx),
            final(self).slots@ == old(self).slots@.update(
                idx as int,
                Slot {
                    generation: (old(self).slots@[idx as int].generation + 1) as u32,
                    next_free: final(self).slots@[idx as int].next_free,
                    hdr: NodeHeader::blank(0),
                    body: B::spec_zero(),
                },
            ),
            final(self).slots@[idx as int].generation == old(self).slots@[idx as int].generation + 1,
    {
        proof {
            crate::arena::free_keeps_books(self.books(), idx);
        }
        let generation: u32 = self.slots[idx as usize].generation + 1;
        self.live = self.live - 1;
        let mut next_free: u32 = 0;
        if generation >= RETIRE_AT {
            self.retired = self.retired + 1;
        } else {
            next_free = self.free_head;
            self.free_head = idx + 1;
        }
        self.slots[idx as usize] = Slot {
            generation,
            next_free,
            hdr: NodeHeader::zero(),
            body: B::zero(),
        };
        proof {
            assert(self.books().gens =~= old(self).books().after_free(idx).gens);
            assert(self.books().next =~= old(self).books().after_free(idx).next);
        }
    }

    pub fn get(&self, idx: u32, generation: u32) -> (r: Option<&Slot<B>>)
        ensures
            r is Some <==> self.names(idx, generation),
            r matches Some(s) ==> *s == self.slots@[idx as int],
    {
        if generation % 2 == 0 || idx as usize >= N {
            return None;
        }
        let slot = &self.slots[idx as usize];
        if slot.generation == generation {
            Some(slot)
        } else {
            None
        }
    }

    pub fn get_mut(&mut self, idx: u32, generation: u32) -> (r: Option<&mut Slot<B>>)
        ensures
            r is Some <==> old(self).names(idx, generation),
            match r {
                Some(s) => {
                    &&& *s == old(self).slots@[idx as int]
                    &&& final(self).slots@ =~= old(self).slots@.update(idx as int, *final(s))
                    &&& final(self).free_head == old(self).free_head
                    &&& final(self).bump == old(self).bump
                    &&& final(self).live == old(self).live
                    &&& final(self).retired == old(self).retired
                },
                None => *final(self) == *old(self),
            },
    {
        if generation % 2 == 0 || idx as usize >= N {
            return None;
        }
        if self.slots[idx as usize].generation == generation {
            Some(&mut self.slots[idx as usize])
        } else {
            None
        }
    }

    /// The indices of every live slot, in order. Used by the checker and the
    /// snapshot writer; never on a fast path.
    pub fn live_indices(&self) -> (r: Vec<u32>)
        requires
            self.wf(),
        ensures
            r@ == crate::arena::live_below(self.books().gens, N as int),
    {
        let mut out: Vec<u32> = Vec::new();
        let mut i: u32 = 0;
        while i < self.bump
            invariant
                self.wf(),
                i <= self.bump <= N,
                N <= 0x100_0000,
                out@ == crate::arena::live_below(self.books().gens, i as int),
            decreases self.bump - i,
        {
            if self.slots[i as usize].is_live() {
                out.push(i);
            }
            i = i + 1;
        }
        proof {
            crate::arena::live_below_stops(self.books().gens, self.bump as int, N as int);
        }
        out
    }
}

/// The edge arena. Slot 0 is a permanent sentinel so that a zeroed list head
/// means "empty list".
pub struct EdgeSlab {
    pub slots: [Edge; MAX_EDGES],
    pub free_head: u32,
    pub bump: u32,
    pub live: u32,
    pub retired: u32,
}

/// The forward links of every edge, in one direction.
pub open spec fn nexts(slots: Seq<Edge>, dir: Dir) -> Seq<u32> {
    Seq::new(slots.len(), |i: int| slots[i].spec_next(dir))
}

/// The backward links of every edge, in one direction.
pub open spec fn prevs(slots: Seq<Edge>, dir: Dir) -> Seq<u32> {
    Seq::new(slots.len(), |i: int| slots[i].spec_prev(dir))
}

/// Nothing but the links of one direction differs, and those only on the
/// given members.
pub open spec fn relinked(a: Seq<Edge>, b: Seq<Edge>, dir: Dir, members: Seq<u32>) -> bool {
    &&& a.len() == b.len()
    &&& forall|i: int|
        0 <= i < a.len() ==> #[trigger] b[i] == a[i].with_next(dir, b[i].spec_next(dir)).with_prev(
            dir,
            b[i].spec_prev(dir),
        )
    &&& forall|i: int|
        0 <= i < a.len() && !members.contains(i as u32) ==> #[trigger] b[i] == a[i]
}

impl EdgeSlab {
    pub open spec fn books(self) -> Books {
        Books {
            gens: self.slots@.map_values(|e: Edge| e.generation),
            next: self.slots@.map_values(|e: Edge| e.out_next),
            free_head: self.free_head,
            bump: self.bump,
            live: self.live,
            retired: self.retired,
            base: 1,
        }
    }

    pub open spec fn wf(self) -> bool {
        self.books().wf()
    }

    /// The list that starts at `head`, as edge indices.
    pub open spec fn list(self, head: u32, dir: Dir) -> Seq<u32> {
        crate::ring::list_at(nexts(self.slots@, dir), head)
    }

    /// The links thread the list at `head` into a circle.
    pub open spec fn is_ring(self, head: u32, dir: Dir) -> bool {
        &&& head < MAX_EDGES
        &&& crate::ring::ring(
            nexts(self.slots@, dir),
            prevs(self.slots@, dir),
            self.list(head, dir),
        )
    }

    /// The counters and the free list head are as they were.
    pub open spec fn same_counters(self, o: EdgeSlab) -> bool {
        &&& self.free_head == o.free_head
        &&& self.bump == o.bump
        &&& self.live == o.live
        &&& self.retired == o.retired
    }

    pub open spec fn names(self, idx: u32, generation: u32) -> bool {
        &&& idx < MAX_EDGES
        &&& crate::arena::is_odd(generation)
        &&& self.slots@[idx as int].generation == generation
    }

    pub fn zero() -> (r: EdgeSlab)
        ensures
            r.wf(),
            forall|i: int|
                0 <= i < MAX_EDGES ==> (#[trigger] r.slots@[i]).generation == 0
                    && r.slots@[i].blank() && r.slots@[i].out_next == 0,
            r.live == 0,
            r.retired == 0,
            r.free_head == 0,
            r.bump == 0,
            r.books().free() == Seq::<u32>::empty(),
            r.books().stock() == Stock::blank(MAX_EDGES as nat, 1),
    {
        let r = EdgeSlab {
            slots: [Edge::zero();MAX_EDGES],
            free_head: 0,
            bump: 0,
            live: 0,
            retired: 0,
        };
        proof {
            crate::arena::blank_books(r.books());
        }
        r
    }

    pub fn live_count(&self) -> (r: u32)
        ensures
            r == self.live,
            self.wf() ==> r == crate::arena::count_live(self.books().gens),
    {
        self.live
    }

    /// How many edges fit at once, the sentinel apart.
    pub fn capacity(&self) -> (r: u32)
        ensures
            r == MAX_EDGES - 1,
    {
        MAX_EDGES as u32 - 1
    }

    pub fn retired_count(&self) -> (r: u32)
        ensures
            r == self.retired,
    {
        self.retired
    }

    pub fn allocate(&mut self) -> (r: Option<(u32, u32)>)
        requires
            old(self).wf(),
        ensures
            final(self).wf(),
            final(self).slots@.len() == old(self).slots@.len(),
            old(self).books().full() ==> r is None && final(self).slots == old(self).slots
                && final(self).live == old(self).live && final(self).retired == old(self).retired
                && final(self).free_head == old(self).free_head && final(self).bump == old(self).bump,
            !old(self).books().full() ==> ({
                let i = old(self).books().next_index();
                let g = (old(self).slots@[i as int].generation + 1) as u32;
                &&& r == Some((i, g))
                &&& 0 < i < MAX_EDGES
                &&& crate::arena::is_odd(g)
                &&& g == old(self).slots@[i as int].generation + 1
                &&& !old(self).slots@[i as int].spec_is_live()
                &&& final(self).books() == old(self).books().after_alloc()
                &&& final(self).slots@ == old(self).slots@.update(i as int, final(self).slots@[i as int])
                &&& final(self).slots@[i as int].generation == g
                &&& final(self).slots@[i as int].blank()
            }),
    {
        proof {
            if !self.books().full() {
                crate::arena::alloc_keeps_books(self.books());
            }
        }
        // The sentinel is never handed out.
        let fresh: u32 = if self.bump == 0 {
            1
        } else {
            self.bump
        };
        let idx: u32 = if self.free_head != 0 {
            let idx: u32 = self.free_head - 1;
            self.free_head = self.slots[idx as usize].out_next;
            idx
        } else if (fresh as usize) < MAX_EDGES {
            self.bump = fresh + 1;
            fresh
        } else {
            return None;
        };
        let generation: u32 = self.slots[idx as usize].generation + 1;
        let mut e = Edge::zero();
        e.generation = generation;
        self.slots[idx as usize] = e;
        self.live = self.live + 1;
        proof {
            assert(self.books().gens =~= old(self).books().after_alloc().gens);
            assert(self.books().next =~= old(self).books().after_alloc().next);
            assert(self.slots@ =~= old(self).slots@.update(idx as int, e));
        }
        Some((idx, generation))
    }

    pub fn free(&mut self, idx: u32)
        requires
            old(self).wf(),
            idx < MAX_EDGES,
            old(self).slots@[idx as int].spec_is_live(),
        ensures
            final(self).wf(),
            final(self).books() == old(self).books().after_free(idx),
            final(self).slots@ == old(self).slots@.update(
                idx as int,
                final(self).slots@[idx as int],
            ),
            final(self).slots@[idx as int].generation == old(self).slots@[idx as int].generation + 1,
            final(self).slots@[idx as int].blank(),
            !final(self).slots@[idx as int].spec_is_live(),
    {
        proof {
            crate::arena::free_keeps_books(self.books(), idx);
        }
        let generation: u32 = self.slots[idx as usize].generation + 1;
        let mut e = Edge::zero();
        e.generation = generation;
        self.live = self.live - 1;
        if generation >= RETIRE_AT {
            self.retired = self.retired + 1;
        } else {
            e.out_next = self.free_head;
            self.free_head = idx + 1;
        }
        self.slots[idx as usize] = e;
        proof {
            assert(self.books().gens =~= old(self).books().after_free(idx).gens);
            assert(self.books().next =~= old(self).books().after_free(idx).next);
            assert(self.slots@ =~= old(self).slots@.update(idx as int, e));
        }
    }

    pub fn get(&self, idx: u32, generation: u32) -> (r: Option<&Edge>)
        ensures
            r is Some <==> self.names(idx, generation),
            r matches Some(e) ==> *e == self.slots@[idx as int],
    {
        if generation % 2 == 0 || idx as usize >= MAX_EDGES {
            return None;
        }
        let e = &self.slots[idx as usize];
        if e.generation == generation {
            Some(e)
        } else {
            None
        }
    }

    pub fn get_mut(&mut self, idx: u32, generation: u32) -> (r: Option<&mut Edge>)
        ensures
            r is Some <==> old(self).names(idx, generation),
            match r {
                Some(e) => {
                    &&& *e == old(self).slots@[idx as int]
                    &&& final(self).slots@ =~= old(self).slots@.update(idx as int, *final(e))
                    &&& final(self).same_counters(*old(self))
                },
                None => *final(self) == *old(self),
            },
    {
        if generation % 2 == 0 || idx as usize >= MAX_EDGES {
            return None;
        }
        if self.slots[idx as usize].generation == generation {
            Some(&mut self.slots[idx as usize])
        } else {
            None
        }
    }

    pub fn at(&self, idx: u32) -> (r: &Edge)
        requires
            idx < MAX_EDGES,
        ensures
            *r == self.slots@[idx as int],
    {
        &self.slots[idx as usize]
    }

    pub fn at_mut(&mut self, idx: u32) -> (r: &mut Edge)
        requires
            idx < MAX_EDGES,
        ensures
            *r == old(self).slots@[idx as int],
            final(self).slots@ =~= old(self).slots@.update(idx as int, *final(r)),
            final(self).same_counters(*old(self)),
    {
        &mut self.slots[idx as usize]
    }

    /// The indices of every live edge, in order.
    pub fn live_indices(&self) -> (r: Vec<u32>)
        requires
            self.wf(),
        ensures
            r@ == crate::arena::live_below(self.books().gens, MAX_EDGES as int),
    {
        let mut out: Vec<u32> = Vec::new();
        let mut i: u32 = 1;
        proof {
            crate::arena::live_below_stops(self.books().gens, 0, 1);
        }
        while i < self.bump
            invariant
                self.wf(),
                1 <= i,
                i <= self.bump || i == 1,
                self.bump <= MAX_EDGES,
                out@ == crate::arena::live_below(self.books().gens, i as int),
            decreases self.bump - i,
        {
            if self.slots[i as usize].is_live() {
                out.push(i);
            }
            i = i + 1;
        }
        proof {
            crate::arena::live_below_stops(self.books().gens, i as int, MAX_EDGES as int);
        }
        out
    }
}

// -------------------------------------------------------- list primitives ---
// These take the head by value and return the new head. That keeps them
// borrowing only the edge arena, so the caller can copy a head out of a node,
// splice, and write the head back without holding two mutable borrows of the
// graph at once.

/// Insert `e` at the tail of the circular list whose head is `head`.
pub fn list_push_tail(edges: &mut EdgeSlab, head: u32, e: u32, dir: Dir) -> (r: u32)
    requires
        old(edges).is_ring(head, dir),
        0 < e < MAX_EDGES,
        !old(edges).list(head, dir).contains(e),
    ensures
        r == if head == 0 {
            e
        } else {
            head
        },
        final(edges).is_ring(r, dir),
        final(edges).list(r, dir) == old(edges).list(head, dir).push(e),
        relinked(old(edges).slots@, final(edges).slots@, dir, old(edges).list(head, dir).push(e)),
        final(edges).same_counters(*old(edges)),
{
    let ghost s = edges.list(head, dir);
    let ghost t = s.push(e);
    let ghost next = nexts(edges.slots@, dir);
    let ghost prev = prevs(edges.slots@, dir);
    proof {
        crate::ring::ring_is_list(next, prev, s);
        assert(t[t.len() - 1] == e);
    }
    if head == 0 {
        let edge = edges.at_mut(e);
        edge.set_next(dir, e);
        edge.set_prev(dir, e);
        proof {
            assert(s.len() == 0);
            assert(nexts(edges.slots@, dir) =~= next.update(e as int, e));
            assert(prevs(edges.slots@, dir) =~= prev.update(e as int, e));
            crate::ring::ring_push(
                next,
                prev,
                s,
                e,
                nexts(edges.slots@, dir),
                prevs(edges.slots@, dir),
            );
            crate::ring::ring_is_list(nexts(edges.slots@, dir), prevs(edges.slots@, dir), t);
        }
        return e;
    }
    proof {
        assert(s[0] == head);
        assert(prev[s[0] as int] == s[crate::ring::pred(0, s.len() as int)]);
    }
    let tail: u32 = edges.at(head).prev(dir);
    {
        let edge = edges.at_mut(e);
        edge.set_next(dir, head);
        edge.set_prev(dir, tail);
    }
    edges.at_mut(tail).set_next(dir, e);
    edges.at_mut(head).set_prev(dir, e);
    proof {
        assert(s.contains(s[0]) && s.contains(s[s.len() - 1]));
        assert(t[0] == s[0]);
        assert(t[s.len() - 1] == tail);
        assert(nexts(edges.slots@, dir) =~= next.update(e as int, s[0]).update(
            s.last() as int,
            e,
        ));
        assert(prevs(edges.slots@, dir) =~= prev.update(e as int, s.last()).update(
            s[0] as int,
            e,
        ));
        crate::ring::ring_push(
            next,
            prev,
            s,
            e,
            nexts(edges.slots@, dir),
            prevs(edges.slots@, dir),
        );
        crate::ring::ring_is_list(nexts(edges.slots@, dir), prevs(edges.slots@, dir), t);
    }
    head
}

/// Insert `e` at the head of the circular list. Used for stack-like lists
/// where insertion order does not matter.
pub fn list_push_head(edges: &mut EdgeSlab, head: u32, e: u32, dir: Dir) -> (r: u32)
    requires
        old(edges).is_ring(head, dir),
        0 < e < MAX_EDGES,
        !old(edges).list(head, dir).contains(e),
    ensures
        r == e,
        final(edges).is_ring(e, dir),
        final(edges).list(e, dir) == seq![e] + old(edges).list(head, dir),
        relinked(old(edges).slots@, final(edges).slots@, dir, old(edges).list(head, dir).push(e)),
        final(edges).same_counters(*old(edges)),
{
    let ghost s = edges.list(head, dir);
    let h: u32 = list_push_tail(edges, head, e, dir);
    proof {
        let next = nexts(edges.slots@, dir);
        let prev = prevs(edges.slots@, dir);
        let t = s.push(e);
        let u = seq![e] + s;
        crate::ring::ring_unrotate(next, prev, t);
        assert(seq![t.last()] + t.drop_last() =~= u);
        crate::ring::ring_is_list(next, prev, u);
    }
    e
}

/// The list without the edge `e`.
pub open spec fn without(s: Seq<u32>, e: u32) -> Seq<u32> {
    s.remove(s.index_of(e))
}

/// Remove `e` from the circular list whose head is `head`; returns the new head.
pub fn list_remove(edges: &mut EdgeSlab, head: u32, e: u32, dir: Dir) -> (r: u32)
    requires
        old(edges).is_ring(head, dir),
        old(edges).list(head, dir).contains(e),
    ensures
        final(edges).is_ring(r, dir),
        r == 0 <==> old(edges).list(head, dir).len() == 1,
        final(edges).list(r, dir) == without(old(edges).list(head, dir), e),
        relinked(old(edges).slots@, final(edges).slots@, dir, old(edges).list(head, dir)),
        final(edges).slots@[e as int].spec_next(dir) == 0,
        final(edges).slots@[e as int].spec_prev(dir) == 0,
        final(edges).same_counters(*old(edges)),
{
    let ghost s = edges.list(head, dir);
    let ghost k = s.index_of(e);
    let ghost n = s.len() as int;
    let ghost t = s.remove(k);
    let ghost next0 = nexts(edges.slots@, dir);
    let ghost prev0 = prevs(edges.slots@, dir);
    proof {
        assert(0 <= k < s.len() && s[k] == e);
        crate::ring::ring_is_list(next0, prev0, s);
        assert(s[0] == head);
        assert(next0[s[k] as int] == s[crate::ring::succ(k, n)]);
        assert(prev0[s[k] as int] == s[crate::ring::pred(k, n)]);
    }
    let next: u32 = edges.at(e).next(dir);
    let prev: u32 = edges.at(e).prev(dir);
    if next == e {
        proof {
            if n > 1 {
                assert(s[crate::ring::succ(k, n)] != s[k]);
            }
        }
        let edge = edges.at_mut(e);
        edge.set_next(dir, 0);
        edge.set_prev(dir, 0);
        proof {
            assert(nexts(edges.slots@, dir) =~= next0.update(e as int, 0));
            assert(prevs(edges.slots@, dir) =~= prev0.update(e as int, 0));
            assert(t =~= Seq::<u32>::empty());
            crate::ring::ring_remove(
                next0,
                prev0,
                s,
                k,
                nexts(edges.slots@, dir),
                prevs(edges.slots@, dir),
            );
            crate::ring::ring_is_list(nexts(edges.slots@, dir), prevs(edges.slots@, dir), t);
        }
        return 0;
    }
    edges.at_mut(prev).set_next(dir, next);
    edges.at_mut(next).set_prev(dir, prev);
    {
        let edge = edges.at_mut(e);
        edge.set_next(dir, 0);
        edge.set_prev(dir, 0);
    }
    proof {
        assert(n > 1) by {
            if n == 1 {
                assert(s[crate::ring::succ(k, n)] == s[k]);
            }
        }
        let q = crate::ring::succ(k, n);
        let p = crate::ring::pred(k, n);
        assert(s[q] != s[k] && s[p] != s[k]);
        assert(s.contains(s[q]) && s.contains(s[p]));
        assert(nexts(edges.slots@, dir) =~= next0.update(prev as int, next).update(e as int, 0));
        assert(prevs(edges.slots@, dir) =~= prev0.update(next as int, prev).update(e as int, 0));
        crate::ring::ring_remove(
            next0,
            prev0,
            s,
            k,
            nexts(edges.slots@, dir),
            prevs(edges.slots@, dir),
        );
        crate::ring::ring_is_list(nexts(edges.slots@, dir), prevs(edges.slots@, dir), t);
        if k == 0 {
            assert(t[0] == s[1]);
        } else {
            assert(t[0] == s[0]);
            assert(s[0] != s[k]);
        }
    }
    if head == e {
        next
    } else {
        head
    }
}

/// Move `e` to the tail of its list. This is `yield`: two splices, no allocation.
pub fn list_move_to_tail(edges: &mut EdgeSlab, head: u32, e: u32, dir: Dir) -> (r: u32)
    requires
        old(edges).is_ring(head, dir),
        old(edges).list(head, dir).contains(e),
    ensures
        final(edges).is_ring(r, dir),
        final(edges).list(r, dir) == without(old(edges).list(head, dir), e).push(e),
        relinked(old(edges).slots@, final(edges).slots@, dir, old(edges).list(head, dir)),
        final(edges).same_counters(*old(edges)),
{
    let ghost s = edges.list(head, dir);
    proof {
        crate::ring::ring_is_list(nexts(edges.slots@, dir), prevs(edges.slots@, dir), s);
        without_facts(s, e);
    }
    let h: u32 = list_remove(edges, head, e, dir);
    let ghost mid = edges.slots@;
    let r: u32 = list_push_tail(edges, h, e, dir);
    proof {
        let t = without(s, e).push(e);
        assert forall|x: u32| !s.contains(x) implies !#[trigger] t.contains(x) by {
            if t.contains(x) {
                let j = choose|j: int| 0 <= j < t.len() && t[j] == x;
                if j < t.len() - 1 {
                    assert(without(s, e)[j] == x);
                    assert(without(s, e).contains(x));
                }
            }
        }
    }
    r
}

/// Removing an edge from a list without duplicates takes out that edge and
/// nothing else.
pub proof fn without_facts(s: Seq<u32>, e: u32)
    requires
        s.no_duplicates(),
        s.contains(e),
    ensures
        !without(s, e).contains(e),
        without(s, e).len() == s.len() - 1,
        without(s, e).no_duplicates(),
        forall|x: u32| #[trigger] without(s, e).contains(x) <==> s.contains(x) && x != e,
{
    let k = s.index_of(e);
    let t = s.remove(k);
    assert(0 <= k < s.len() && s[k] == e);
    assert forall|x: u32| #[trigger] t.contains(x) <==> s.contains(x) && x != e by {
        if t.contains(x) {
            let j = choose|j: int| 0 <= j < t.len() && t[j] == x;
            let sj = if j < k {
                j
            } else {
                j + 1
            };
            assert(t[j] == s[sj]);
            assert(s[sj] != s[k]);
        }
        if s.contains(x) && x != e {
            let j = choose|j: int| 0 <= j < s.len() && s[j] == x;
            if j < k {
                assert(t[j] == x);
            } else {
                assert(t[j - 1] == x);
            }
        }
    }
    assert forall|i: int, j: int| 0 <= i < t.len() && 0 <= j < t.len() && i != j implies t[i]
        != t[j] by {
        let si = if i < k {
            i
        } else {
            i + 1
        };
        let sj = if j < k {
            j
        } else {
            j + 1
        };
        assert(t[i] == s[si] && t[j] == s[sj]);
    }
}

} // verus!

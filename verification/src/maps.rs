//! Address spaces: which one a thread runs in, and what each one maps.

use vstd::prelude::*;

use crate::body::{AddressSpace, Body, MemoryObject, NodeBody, Thread};
use crate::edge::{Dir, EdgeAttr, MapsAttr, RawEdgeData};
use crate::graph::{Graph, GraphError, Ref, Result};
use crate::id::{EdgeId, EdgeKind, NodeId};
use crate::limits::{MAX_EDGES, MAX_MAPPINGS_PER_SPACE};
use crate::view::GraphView;

verus! {

impl GraphView {
    /// A thread bound to an address space, through edge `e`. A thread runs in
    /// one space at a time, so any earlier binding is gone.
    pub open spec fn bound(self, t: NodeId, s: NodeId, e: EdgeId) -> GraphView {
        let w = self.unlink_first(t, Dir::Out, EdgeKind::InSpace).link(
            t,
            EdgeKind::InSpace,
            s,
            crate::edge::zeros(24),
            e.idx(),
            e.generation(),
        );
        w.with_body(t, Body::Thread(Thread { cr3: w.space(s).pml4_phys, ..w.thread(t) }))
    }

    /// Where a mapping starts, for the purpose of ordering it.
    pub open spec fn range_start(self, e: u32) -> u64 {
        if self.edges.contains_key(e) {
            self.maps(e).vaddr
        } else {
            0
        }
    }

    /// Where a mapping ends, for the purpose of ordering it.
    pub open spec fn range_end(self, e: u32) -> int {
        if self.edges.contains_key(e) {
            self.maps(e).end_at()
        } else {
            0
        }
    }

    /// Some indexed mapping of the space collides with the range.
    pub open spec fn collides(self, s: NodeId, attr: MapsAttr) -> bool {
        exists|i: int|
            0 <= i < self.space(s).mapping_count && self.edges.contains_key(
                #[trigger] self.space(s).ranges@[i],
            ) && self.maps(self.space(s).ranges@[i]).spec_overlaps(attr)
    }

    /// `i` is where a range starting at `vaddr` goes in the index: after every
    /// mapping that has ended by there.
    pub open spec fn is_range_slot(self, s: NodeId, vaddr: u64, i: int) -> bool {
        let b = self.space(s);
        &&& 0 <= i <= b.mapping_count
        &&& forall|j: int| 0 <= j < i ==> self.range_end(#[trigger] b.ranges@[j]) <= vaddr
        &&& i < b.mapping_count ==> self.range_end(b.ranges@[i]) > vaddr
    }

    pub open spec fn range_slot(self, s: NodeId, vaddr: u64) -> int {
        choose|i: int| self.is_range_slot(s, vaddr, i)
    }

    /// A mapping made, through edge `e`: counted on both sides, and indexed.
    pub open spec fn mapped(self, s: NodeId, m: NodeId, attr: MapsAttr, e: EdgeId) -> GraphView {
        self.link(
            s,
            EdgeKind::Maps,
            m,
            attr.spec_bytes(),
            e.idx(),
            e.generation(),
        ).with_body(
            m,
            Body::MemoryObject(
                MemoryObject {
                    map_count: (self.memobj(m).map_count + 1) as u32,
                    ..self.memobj(m)
                },
            ),
        ).with_body(
            s,
            Body::AddressSpace(
                self.space(s).with_range(self.range_slot(s, attr.vaddr), e.idx()),
            ),
        )
    }

    /// The range index of a space holds exactly its mappings, in address
    /// order, none running into the next.
    pub open spec fn index_ok(self, s: NodeId) -> bool {
        let b = self.space(s);
        let out = self.list(s, Dir::Out, EdgeKind::Maps);
        &&& b.mapping_count <= MAX_MAPPINGS_PER_SPACE
        &&& out.len() == b.mapping_count
        &&& forall|i: int|
            0 <= i < b.mapping_count ==> self.edges.contains_key(#[trigger] b.ranges@[i])
                && self.edges[b.ranges@[i]].kind == EdgeKind::Maps && self.edges[b.ranges@[i]].src
                == s
        &&& forall|i: int, j: int|
            0 <= i < j < b.mapping_count ==> self.maps(#[trigger] b.ranges@[i]).end_at()
                <= self.maps(#[trigger] b.ranges@[j]).vaddr
        &&& forall|i: int| 0 <= i < out.len() ==> b.indexed().contains(#[trigger] out[i])
    }

    /// The mappings of a space are counted, and no two of them overlap.
    pub open spec fn disjoint_ok(self, s: NodeId) -> bool {
        let out = self.list(s, Dir::Out, EdgeKind::Maps);
        &&& out.len() == self.space(s).mapping_count
        &&& forall|i: int, j: int|
            0 <= i < j < out.len() ==> !self.maps(#[trigger] out[i]).spec_overlaps(
                self.maps(#[trigger] out[j]),
            )
    }
}

/// A space whose range index is in order maps no address twice.
pub proof fn indexed_mappings_are_disjoint(v: GraphView, s: NodeId)
    requires
        v.index_ok(s),
        v.list(s, Dir::Out, EdgeKind::Maps).no_duplicates(),
    ensures
        v.disjoint_ok(s),
{
    let b = v.space(s);
    let out = v.list(s, Dir::Out, EdgeKind::Maps);
    assert forall|i: int, j: int| 0 <= i < j < out.len() implies !v.maps(
        #[trigger] out[i],
    ).spec_overlaps(v.maps(#[trigger] out[j])) by {
        assert(b.indexed().contains(out[i]));
        assert(b.indexed().contains(out[j]));
        let p = choose|p: int| 0 <= p < b.indexed().len() && b.indexed()[p] == out[i];
        let q = choose|q: int| 0 <= q < b.indexed().len() && b.indexed()[q] == out[j];
        assert(b.ranges@[p] == out[i]);
        assert(b.ranges@[q] == out[j]);
        assert(p != q);
    }
}

impl AddressSpace {
    /// Put an edge into the range index.
    pub(crate) fn put_range(&mut self, pos: usize, e: u32)
        requires
            old(self).bounded(),
            old(self).mapping_count < MAX_MAPPINGS_PER_SPACE,
            pos <= old(self).mapping_count,
            e < MAX_EDGES,
        ensures
            *final(self) == old(self).with_range(pos as int, e),
            final(self).bounded(),
    {
        let count: usize = self.mapping_count as usize;
        let ghost r0 = self.ranges@;
        let mut i: usize = count;
        while i > pos
            invariant
                pos <= i <= count < MAX_MAPPINGS_PER_SPACE,
                count == old(self).mapping_count,
                r0 == old(self).ranges@,
                old(self).bounded(),
                *self == (AddressSpace { ranges: self.ranges, ..*old(self) }),
                forall|j: int| 0 <= j < i ==> self.ranges@[j] == r0[j],
                forall|j: int| i < j <= count ==> self.ranges@[j] == r0[j - 1],
                forall|j: int| count < j < MAX_MAPPINGS_PER_SPACE ==> self.ranges@[j] == r0[j],
            decreases i,
        {
            self.ranges[i] = self.ranges[i - 1];
            i = i - 1;
        }
        self.ranges[pos] = e;
        self.mapping_count = self.mapping_count + 1;
        proof {
            assert(self.ranges@ =~= r0.remove(count as int).insert(pos as int, e));
            crate::view::array_of_view(self.ranges);
        }
    }
}

impl Graph {
    /// Set a thread's address space. Single-valued, so this replaces any
    /// existing binding rather than adding a second one.
    pub fn link_in_space(&mut self, t: Ref<Thread>, s: Ref<AddressSpace>) -> (r: Result<EdgeId>)
        requires
            old(self).wf(),
            old(self).seq + 2 <= u64::MAX,
        ensures
            final(self).wf(),
            match old(self).link_refusal(t.id(), EdgeKind::InSpace, s.id()) {
                Some(e) => r == Err::<EdgeId, GraphError>(e) && *final(self) == *old(self),
                None => {
                    &&& r is Ok
                    &&& old(self)@.unlink_first(t.id(), Dir::Out, EdgeKind::InSpace).unused(
                        r->Ok_0,
                    )
                    &&& final(self)@ == old(self)@.bound(t.id(), s.id(), r->Ok_0)
                    &&& old(self)@.first(t.id(), Dir::Out, EdgeKind::InSpace) matches Some(x)
                        ==> !final(self)@.has_edge(x)
                },
            },
            final(self)@.since(old(self)@),
    {
        let ghost g0 = *self;
        let tid = t.id();
        let sid = s.id();
        match self.precheck_link(tid, EdgeKind::InSpace, sid) {
            Err(e) => return Err(e),
            Ok(_) => {},
        }
        self.unlink_first(tid, Dir::Out, EdgeKind::InSpace);
        let ghost g1 = *self;
        proof {
            assert(self@.live(tid) && self@.live(sid));
            assert(self@.dying(tid) == g0@.dying(tid));
            assert(self@.dying(sid) == g0@.dying(sid));
        }
        let e = match self.link_raw(tid, EdgeKind::InSpace, sid, RawEdgeData::zero()) {
            Err(e) => return Err(e),
            Ok(e) => e,
        };
        let cr3: u64 = match self.body(s) {
            Some(b) => b.pml4_phys,
            None => 0,
        };
        if let Some(b) = self.body(t) {
            let mut nb: Thread = *b;
            nb.cr3 = cr3;
            self.write_body(t, nb);
        }
        proof {
            if let Some(x) = g0@.first(tid, Dir::Out, EdgeKind::InSpace) {
                let i = g0@.list(tid, Dir::Out, EdgeKind::InSpace)[0];
                crate::unlink::list_members_live(g0, tid, Dir::Out, EdgeKind::InSpace);
                assert(g0.edge_live(i));
                crate::id::edge_id_round_trip(x, i, g0@.edges[i].generation);
                assert(!g1@.has_edge(x));
                crate::laws_ids::freed_edges_never_return(g0, g1, *self, x);
            }
        }
        Ok(e)
    }

    /// Why a mapping could not be made, if it could not.
    pub open spec fn map_refusal(self, s: NodeId, m: NodeId, attr: MapsAttr) -> Option<GraphError> {
        if self.link_refusal(s, EdgeKind::Maps, m) is Some {
            self.link_refusal(s, EdgeKind::Maps, m)
        } else if self@.space(s).mapping_count >= MAX_MAPPINGS_PER_SPACE {
            Some(GraphError::TooManyMappings)
        } else if self@.collides(s, attr) {
            Some(GraphError::RangeOverlap)
        } else {
            None
        }
    }

    /// Map part of a memory object into an address space.
    pub fn link_maps(
        &mut self,
        s: Ref<AddressSpace>,
        m: Ref<MemoryObject>,
        attr: MapsAttr,
    ) -> (r: Result<EdgeId>)
        requires
            old(self).wf(),
            old(self).seq < u64::MAX,
            attr.fits(),
            old(self)@.live(m.id()) ==> old(self)@.memobj(m.id()).map_count < u32::MAX,
        ensures
            final(self).wf(),
            match old(self).map_refusal(s.id(), m.id(), attr) {
                Some(e) => r == Err::<EdgeId, GraphError>(e) && *final(self) == *old(self),
                None => {
                    let e = old(self).next_edge();
                    &&& r == Ok::<EdgeId, GraphError>(e)
                    &&& old(self)@.unused(e)
                    &&& old(self)@.is_range_slot(
                        s.id(),
                        attr.vaddr,
                        old(self)@.range_slot(s.id(), attr.vaddr),
                    )
                    &&& final(self)@ == old(self)@.mapped(s.id(), m.id(), attr, e)
                },
            },
            final(self)@.since(old(self)@),
    {
        let sid = s.id();
        let mid = m.id();
        match self.precheck_link(sid, EdgeKind::Maps, mid) {
            Err(e) => return Err(e),
            Ok(_) => {},
        }
        let ghost g0 = *self;
        let ghost v = self@;
        let mut space: AddressSpace = match self.body(s) {
            Some(b) => *b,
            None => return Err(GraphError::StaleNode(sid)),
        };
        proof {
            assert(v.nodes.contains_key(sid));
            assert(v.node_ok(sid));
            assert(space == v.space(sid));
        }
        let count: usize = space.mapping_count as usize;
        if count >= MAX_MAPPINGS_PER_SPACE {
            return Err(GraphError::TooManyMappings);
        }
        // Ranges within one address space must not overlap.
        let end: u128 = attr.wide_end();
        let mut i: usize = 0;
        while i < count
            invariant
                i <= count == space.mapping_count,
                count < MAX_MAPPINGS_PER_SPACE,
                space == self@.space(sid),
                space.bounded(),
                *self == g0,
                g0 == *old(self),
                sid == s.id(),
                mid == m.id(),
                end == attr.end_at(),
                self.link_refusal(sid, EdgeKind::Maps, mid) is None,
                self.wf(),
                forall|j: int|
                    0 <= j < i && self@.edges.contains_key(#[trigger] space.ranges@[j])
                        ==> !self@.maps(space.ranges@[j]).spec_overlaps(attr),
            decreases count - i,
        {
            let ei: u32 = space.ranges[i];
            let e = self.edges.at(ei);
            if e.is_live() {
                let other = MapsAttr::decode(e.data);
                assert(self@.edges.contains_key(space.ranges@[i as int]));
                if (other.vaddr as u128) < end && (attr.vaddr as u128) < other.wide_end() {
                    assert(self@.collides(sid, attr));
                    return Err(GraphError::RangeOverlap);
                }
            }
            i = i + 1;
        }
        // The index is kept in address order.
        let mut pos: usize = 0;
        while pos < count && self.range_limit(space.ranges[pos]) <= attr.vaddr as u128
            invariant
                pos <= count == space.mapping_count,
                count < MAX_MAPPINGS_PER_SPACE,
                space.bounded(),
                *self == g0,
                forall|j: int|
                    0 <= j < pos ==> self@.range_end(#[trigger] space.ranges@[j]) <= attr.vaddr,
            decreases count - pos,
        {
            pos = pos + 1;
        }
        proof {
            assert(v.is_range_slot(sid, attr.vaddr, pos as int));
            let p = v.range_slot(sid, attr.vaddr);
            assert(v.is_range_slot(sid, attr.vaddr, p));
            assert(p == pos) by {
                if p < pos {
                    assert(v.range_end(space.ranges@[p]) <= attr.vaddr);
                } else if pos < p {
                    assert(v.range_end(space.ranges@[pos as int]) <= attr.vaddr);
                }
            }
        }
        let e = match self.link_raw(sid, EdgeKind::Maps, mid, attr.encode()) {
            Err(e) => return Err(e),
            Ok(e) => e,
        };
        if let Some(b) = self.body(m) {
            let mut nb: MemoryObject = *b;
            nb.map_count = nb.map_count + 1;
            self.write_body(m, nb);
        }
        space.put_range(pos, e.idx());
        self.write_body(s, space);
        Ok(e)
    }

    /// Where an indexed mapping starts.
    fn range_key(&self, ei: u32) -> (r: u64)
        requires
            ei < MAX_EDGES,
        ensures
            r == self@.range_start(ei),
    {
        let e = self.edges.at(ei);
        if e.is_live() {
            MapsAttr::decode(e.data).vaddr
        } else {
            0
        }
    }

    /// Where an indexed mapping ends.
    fn range_limit(&self, ei: u32) -> (r: u128)
        requires
            ei < MAX_EDGES,
        ensures
            r == self@.range_end(ei),
    {
        let e = self.edges.at(ei);
        if e.is_live() {
            MapsAttr::decode(e.data).wide_end()
        } else {
            0
        }
    }

    /// How many mappings an address space holds.
    pub fn mapping_count(&self, s: Ref<AddressSpace>) -> (r: u32)
        ensures
            r == if self@.live(s.id()) {
                self@.space(s.id()).mapping_count
            } else {
                0
            },
    {
        match self.body(s) {
            Some(b) => b.mapping_count,
            None => 0,
        }
    }

    /// Which mapping covers an address: the question a page fault asks. The
    /// index is sorted, so this is a binary search, and it answers exactly
    /// what looking at every mapping in turn would.
    pub fn find_mapping(&self, s: Ref<AddressSpace>, vaddr: u64) -> (r: Option<(EdgeId, MapsAttr)>)
        requires
            self.wf(),
        ensures
            r matches Some((e, a)) ==> {
                &&& self@.live(s.id())
                &&& self@.has_edge(e)
                &&& self@.space(s.id()).indexed().contains(e.idx())
                &&& a == self@.maps(e.idx())
                &&& a.spec_covers(vaddr)
            },
            self@.live(s.id()) && self@.index_ok(s.id()) ==> (r is Some <==> exists|i: int|
                0 <= i < self@.list(s.id(), Dir::Out, EdgeKind::Maps).len() && self@.maps(
                    #[trigger] self@.list(s.id(), Dir::Out, EdgeKind::Maps)[i],
                ).spec_covers(vaddr)),
    {
        let sid = s.id();
        let b = match self.body(s) {
            Some(b) => b,
            None => return None,
        };
        let ghost v = self@;
        let ghost out = v.list(sid, Dir::Out, EdgeKind::Maps);
        proof {
            assert(v.nodes.contains_key(sid));
            assert(v.node_ok(sid));
        }
        // The last mapping that starts at or below the address.
        let mut lo: usize = 0;
        let mut hi: usize = b.mapping_count as usize;
        while lo < hi
            invariant
                lo <= hi <= b.mapping_count <= MAX_MAPPINGS_PER_SPACE,
                b.bounded(),
                *b == v.space(sid),
                v == self@,
                v.index_ok(sid) ==> forall|j: int|
                    0 <= j < lo ==> v.range_start(#[trigger] b.ranges@[j]) <= vaddr,
                v.index_ok(sid) ==> forall|j: int|
                    hi <= j < b.mapping_count ==> v.range_start(#[trigger] b.ranges@[j]) > vaddr,
                lo > 0 ==> v.range_start(b.ranges@[lo - 1]) <= vaddr,
            decreases hi - lo,
        {
            let mid: usize = lo + (hi - lo) / 2;
            let key: u64 = self.range_key(b.ranges[mid]);
            if key <= vaddr {
                proof {
                    if v.index_ok(sid) {
                        assert forall|j: int| 0 <= j < mid + 1 implies v.range_start(
                            #[trigger] b.ranges@[j],
                        ) <= vaddr by {
                            if j < mid {
                                assert(v.maps(b.ranges@[j]).end_at() <= v.maps(
                                    b.ranges@[mid as int],
                                ).vaddr);
                            }
                        }
                    }
                }
                lo = mid + 1;
            } else {
                proof {
                    if v.index_ok(sid) {
                        assert forall|j: int| mid <= j < b.mapping_count implies v.range_start(
                            #[trigger] b.ranges@[j],
                        ) > vaddr by {
                            if j > mid {
                                assert(v.maps(b.ranges@[mid as int]).end_at() <= v.maps(
                                    b.ranges@[j],
                                ).vaddr);
                            }
                        }
                    }
                }
                hi = mid;
            }
        }
        proof {
            if v.index_ok(sid) {
                index_entry_of_each(v, sid);
            }
        }
        if lo == 0 {
            proof {
                if v.index_ok(sid) && exists|i: int|
                    0 <= i < out.len() && v.maps(#[trigger] out[i]).spec_covers(vaddr) {
                    let i = choose|i: int|
                        0 <= i < out.len() && v.maps(#[trigger] out[i]).spec_covers(vaddr);
                    assert(b.indexed().contains(out[i]));
                    let j = b.indexed().index_of(out[i]);
                    assert(b.ranges@[j] == out[i]);
                    assert(v.range_start(b.ranges@[j]) > vaddr);
                }
            }
            return None;
        }
        let ei: u32 = b.ranges[lo - 1];
        let e = self.edges.at(ei);
        if !e.is_live() {
            proof {
                if v.index_ok(sid) {
                    assert(v.edges.contains_key(b.ranges@[lo - 1]));
                }
            }
            return None;
        }
        let attr = MapsAttr::decode(e.data);
        assert(v.edges.contains_key(ei));
        if vaddr >= attr.vaddr && (vaddr as u128) < attr.wide_end() {
            proof {
                crate::id::edge_id_round_trip(EdgeId(0), ei, e.generation);
                assert(b.indexed()[lo - 1] == ei);
                if v.index_ok(sid) {
                    assert(out.contains(ei));
                    let i = out.index_of(ei);
                    assert(v.maps(out[i]).spec_covers(vaddr));
                }
            }
            return Some((EdgeId::new(ei, e.generation), attr));
        }
        proof {
            if v.index_ok(sid) && exists|i: int|
                0 <= i < out.len() && v.maps(#[trigger] out[i]).spec_covers(vaddr) {
                let i = choose|i: int|
                    0 <= i < out.len() && v.maps(#[trigger] out[i]).spec_covers(vaddr);
                assert(b.indexed().contains(out[i]));
                let j = b.indexed().index_of(out[i]);
                assert(b.ranges@[j] == out[i]);
                if j < lo - 1 {
                    assert(v.maps(b.ranges@[j]).end_at() <= v.maps(b.ranges@[lo - 1]).vaddr);
                } else if j >= lo {
                    assert(v.range_start(b.ranges@[j]) > vaddr);
                }
            }
        }
        None
    }
}

/// Every indexed entry is one of the space's mappings, and every mapping has
/// an entry.
pub proof fn index_entry_of_each(v: GraphView, s: NodeId)
    requires
        v.wf(),
        v.live(s),
        v.index_ok(s),
    ensures
        forall|i: int|
            0 <= i < v.space(s).mapping_count ==> v.list(s, Dir::Out, EdgeKind::Maps).contains(
                #[trigger] v.space(s).ranges@[i],
            ),
{
    let b = v.space(s);
    assert forall|i: int| 0 <= i < b.mapping_count implies v.list(
        s,
        Dir::Out,
        EdgeKind::Maps,
    ).contains(#[trigger] b.ranges@[i]) by {
        assert(v.edges.contains_key(b.ranges@[i]));
        assert(v.edge_ok(b.ranges@[i]));
    }
}

} // verus!

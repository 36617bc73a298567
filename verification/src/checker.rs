//! The invariant checker.
//!
//! This is not optional tooling. It is the mechanism that keeps the derived
//! indices honest: it runs on demand, and a failure in the kernel is a panic
//! with a graph dump, not a log line. It takes nothing about the graph's lists
//! or indices for granted.

use vstd::prelude::*;

use crate::body::{AddressSpace, Body, NodeBody, Process, Thread, ThreadState};
use crate::edge::{Dir, EdgeAttr};
use crate::graph::Graph;
use crate::id::{EdgeId, EdgeKind, NodeId, NodeKind};
use crate::limits::{MAX_EDGES, MAX_MAPPINGS_PER_SPACE};
use crate::slab::{nexts, prevs};

verus! {

pub const BITMAP_WORDS: usize = 64;

/// Longest chain of owners the checker follows.
pub const OWNER_BUDGET: usize = 776;

pub type CheckResult = core::result::Result<(), Violation>;

#[allow(inconsistent_fields)]
#[derive(Clone, Copy, Debug, PartialEq, Eq)]
pub enum Violation {
    /// An edge names an endpoint that is not a live node.
    DanglingEndpoint { edge: EdgeId, endpoint: NodeId },
    /// An edge is not threaded into both of its endpoints' lists.
    EdgeMissingFromOutList { edge: EdgeId },
    EdgeMissingFromInList { edge: EdgeId },
    /// An adjacency list contains a dead or duplicated edge.
    DeadEdgeInList { node: NodeId, edge_idx: u32 },
    DuplicateEdgeInList { node: NodeId, edge_idx: u32 },
    /// `next`/`prev` disagree.
    BrokenBackLink { node: NodeId, edge_idx: u32 },
    /// An edge in a node's list does not name that node as its endpoint.
    ListEndpointMismatch { node: NodeId, edge_idx: u32 },
    /// An edge in a kind's list is of another kind.
    ListKindMismatch { node: NodeId, edge_idx: u32, expected: EdgeKind },
    /// A node's header disagrees with the kind encoded in its id.
    HeaderKindMismatch { node: NodeId, header_kind: u8 },
    /// This edge kind does not accept these endpoint kinds.
    Incompatible { edge: EdgeId, kind: EdgeKind, src: NodeKind, dst: NodeKind },
    /// Every live non-root node has exactly one owner.
    NoOwner { node: NodeId },
    MultipleOwners { node: NodeId },
    /// Following owners must reach the root.
    OwnershipCycle { node: NodeId },
    /// A dying node must be detached from the tree and the scheduler.
    DyingStillOwned { node: NodeId },
    DyingStillScheduled { node: NodeId },
    /// Thread state and scheduler edges disagree.
    ThreadStateMismatch { thread: NodeId, state: ThreadState, ready: bool, waiting: bool },
    /// The handle table and the `Holds` edges disagree.
    HandleSlotDead { process: NodeId, slot: u32 },
    HandleSlotMismatch { process: NodeId, slot: u32 },
    HoldsEdgeNotInTable { edge: EdgeId },
    /// A hot-hop cache diverged from the edge it shadows.
    OwnerCacheStale { node: NodeId, cached: NodeId, actual: NodeId },
    Cr3CacheStale { thread: NodeId, cached: u64, actual: u64 },
    MapCountStale { node: NodeId, cached: u32, actual: u32 },
    MappingCountStale { space: NodeId, cached: u32, actual: u32 },
    /// Two mappings in one address space cover the same virtual page.
    MappingOverlap { space: NodeId, a: EdgeId, b: EdgeId },
    /// The range index disagrees with the `Maps` edges it indexes.
    RangeIndexUnsorted { space: NodeId, at: usize },
    RangeIndexStale { space: NodeId, at: usize },
    RangeIndexCount { space: NodeId, indexed: u32, edges: u32 },
    RangeIndexMissing { space: NodeId, edge: EdgeId },
    /// The walk exceeded its budget, which means a list is corrupt.
    WalkOverrun { node: NodeId },
    /// A single-valued relationship has more than one edge.
    Cardinality { node: NodeId, kind: EdgeKind, dir: &'static str, count: usize },
}

/// Scratch space for a check. Held by the caller so that it need not live on a
/// small kernel stack.
pub struct Checker {
    pub seen_out: [u64; BITMAP_WORDS],
    pub seen_in: [u64; BITMAP_WORDS],
}

impl Default for Checker {
    fn default() -> (r: Checker)
        ensures
            r.clean(),
    {
        Checker::new()
    }
}

impl Graph {
    /// Every index the lists and the handle tables store is inside the edge
    /// arena, so that following one cannot leave memory.
    pub open spec fn in_bounds(self) -> bool {
        &&& forall|id: NodeId, d: Dir, k: EdgeKind|
            self.spec_live(id) ==> #[trigger] self.hdr(id).spec_head(d, k) < MAX_EDGES
        &&& forall|e: u32, d: Dir|
            self.edge_live(e) ==> #[trigger] self.edges.slots@[e as int].spec_next(d) < MAX_EDGES
        &&& forall|id: NodeId|
            self.spec_live(id) ==> match #[trigger] self.cell_at(id).body {
                Body::Process(p) => p.bounded(),
                Body::AddressSpace(s) => forall|i: int|
                    0 <= i < MAX_MAPPINGS_PER_SPACE ==> #[trigger] s.ranges@[i] < MAX_EDGES,
                _ => true,
            }
    }

    /// What the checker can be run on: arenas whose own books are in order,
    /// and no index that leads out of them. Nothing is asked of the lists, the
    /// edges, the tree or the derived indices.
    pub open spec fn checkable(self) -> bool {
        &&& self.arenas_ok()
        &&& self.in_bounds()
        &&& self.root_id.is_null() || self.root_id.kind() == Some(NodeKind::Root)
    }

    /// One list is a ring of live edges of its kind that name its node.
    pub open spec fn list_sound(self, id: NodeId, dir: Dir, kind: EdgeKind) -> bool {
        let head = self.hdr(id).spec_head(dir, kind);
        let s = self.edges.list(head, dir);
        &&& self.edges.is_ring(head, dir)
        &&& forall|i: int|
            0 <= i < s.len() ==> self.edge_live(#[trigger] s[i])
                && self.edges.slots@[s[i] as int].kind == kind.spec_code()
                && self.edges.slots@[s[i] as int].endpoint(dir) == id
    }

    /// The raw list, as memory has it.
    pub open spec fn raw_list(self, id: NodeId, dir: Dir, kind: EdgeKind) -> Seq<u32> {
        self.edges.list(self.hdr(id).spec_head(dir, kind), dir)
    }

    /// An edge belongs on a list, and the one after it points back at it.
    pub open spec fn step_ok(self, id: NodeId, dir: Dir, kind: EdgeKind, e: u32) -> bool {
        let x = self.edges.slots@[e as int];
        &&& self.edge_live(e)
        &&& x.kind == kind.spec_code()
        &&& x.endpoint(dir) == id
        &&& self.edges.slots@[x.spec_next(dir) as int].spec_prev(dir) == e
    }

    /// The first `n` edges of a list are as they should be.
    pub open spec fn walk_ok(self, id: NodeId, dir: Dir, kind: EdgeKind, n: int) -> bool {
        let s = self.raw_list(id, dir, kind);
        0 <= n <= s.len() && forall|i: int| 0 <= i < n ==> self.step_ok(id, dir, kind, #[trigger] s[i])
    }

    /// The lists of a node that are walked before this one are sound.
    pub open spec fn lists_before(self, id: NodeId, kind: EdgeKind, dir: Dir) -> bool {
        forall|k: EdgeKind, d: Dir|
            k.spec_code() < kind.spec_code() || k == kind && d == Dir::Out && dir == Dir::In
                ==> #[trigger] self.list_sound(id, d, k)
    }

    /// The first `i` live nodes have sound headers and lists.
    pub open spec fn sound_until(self, i: int) -> bool {
        &&& forall|j: int|
            0 <= j < i ==> self.hdr(#[trigger] self.all_live_ids()[j]).kind
                == self.all_live_ids()[j].kind_raw()
        &&& forall|j: int, d: Dir, k: EdgeKind|
            0 <= j < i ==> #[trigger] self.list_sound(self.all_live_ids()[j], d, k)
    }
}

impl Checker {
    /// Nothing has been seen yet.
    pub open spec fn clean(self) -> bool {
        forall|d: Dir, e: u32| e < MAX_EDGES ==> !#[trigger] self.seen(d, e)
    }

    /// The edge has been met in some list of this direction.
    pub closed spec fn seen(self, dir: Dir, e: u32) -> bool {
        match dir {
            Dir::Out => crate::bits::bit(self.seen_out@, e as int),
            Dir::In => crate::bits::bit(self.seen_in@, e as int),
        }
    }

    pub fn new() -> (r: Checker)
        ensures
            r.clean(),
    {
        let r = Checker { seen_out: [0;BITMAP_WORDS], seen_in: [0;BITMAP_WORDS] };
        proof {
            no_bits(r);
        }
        r
    }

    pub(crate) fn clear(&mut self)
        ensures
            final(self).clean(),
    {
        self.seen_out = [0;BITMAP_WORDS];
        self.seen_in = [0;BITMAP_WORDS];
        proof {
            no_bits(*self);
        }
    }

    /// Set a bit; true if it was not set before.
    fn mark(bits: &mut [u64; BITMAP_WORDS], i: u32) -> (r: bool)
        requires
            i < MAX_EDGES,
        ensures
            r == !crate::bits::bit(old(bits)@, i as int),
            forall|j: u32|
                j < MAX_EDGES ==> (#[trigger] crate::bits::bit(final(bits)@, j as int) <==> j == i || crate::bits::bit(
                    old(bits)@,
                    j as int,
                )),
    {
        let w: usize = (i / 64) as usize;
        let b: u64 = (i % 64) as u64;
        let ghost before = bits@;
        let was: bool = bits[w] & (1u64 << b) != 0;
        bits[w] = bits[w] | (1u64 << b);
        proof {
            reveal(crate::bits::bit);
            assert forall|j: u32| j < MAX_EDGES implies (#[trigger] crate::bits::bit(bits@, j as int) <==> j == i
                || crate::bits::bit(before, j as int)) by {
                if j / 64 == i / 64 {
                    crate::bits::set_bit(before[w as int], b, (j % 64) as u64);
                }
            }
        }
        !was
    }

    fn is_marked(bits: &[u64; BITMAP_WORDS], i: u32) -> (r: bool)
        requires
            i < MAX_EDGES,
        ensures
            r == crate::bits::bit(bits@, i as int),
    {
        reveal(crate::bits::bit);
        bits[(i / 64) as usize] & (1u64 << (i % 64) as u64) != 0
    }

    /// Note that an edge was met; true if it had not been before.
    fn note(&mut self, dir: Dir, e: u32) -> (r: bool)
        requires
            e < MAX_EDGES,
        ensures
            r == !old(self).seen(dir, e),
            forall|x: u32|
                x < MAX_EDGES ==> (#[trigger] final(self).seen(dir, x) <==> x == e || old(self).seen(
                    dir,
                    x,
                )),
            forall|x: u32|
                x < MAX_EDGES ==> #[trigger] final(self).seen(dir.other(), x) == old(self).seen(
                    dir.other(),
                    x,
                ),
    {
        match dir {
            Dir::Out => Self::mark(&mut self.seen_out, e),
            Dir::In => Self::mark(&mut self.seen_in, e),
        }
    }

    /// Whether an edge has been met.
    pub(crate) fn was_seen(&self, dir: Dir, e: u32) -> (r: bool)
        requires
            e < MAX_EDGES,
        ensures
            r == self.seen(dir, e),
    {
        match dir {
            Dir::Out => Self::is_marked(&self.seen_out, e),
            Dir::In => Self::is_marked(&self.seen_in, e),
        }
    }

    /// Walk one list, marking each edge met.
    #[verifier::rlimit(40)]
    fn check_list(&mut self, g: &Graph, node: NodeId, kind: EdgeKind, dir: Dir) -> (r: CheckResult)
        requires
            g.checkable(),
            g.spec_live(node),
        ensures
            r is Ok <==> g.list_sound(node, dir, kind) && (forall|i: int|
                0 <= i < g.raw_list(node, dir, kind).len() ==> !old(self).seen(
                    dir,
                    #[trigger] g.raw_list(node, dir, kind)[i],
                )),
            r is Ok ==> {
                &&& forall|e: u32|
                    e < MAX_EDGES ==> (#[trigger] final(self).seen(dir, e) <==> old(self).seen(
                        dir,
                        e,
                    ) || g.raw_list(node, dir, kind).contains(e))
                &&& forall|e: u32|
                    e < MAX_EDGES ==> #[trigger] final(self).seen(dir.other(), e) == old(self).seen(
                        dir.other(),
                        e,
                    )
            },
            r matches Err(v) ==> v.about_list(
                *g,
                node,
                kind,
                dir,
                |e: u32| old(self).seen(dir, e),
            ),
    {
        let head: u32 = g.list_head(node, dir, kind);
        let ghost whole = g.raw_list(node, dir, kind);
        proof {
            crate::link::list_starts_at_head(g.edges, head, dir);
        }
        if head == 0 {
            assert(whole =~= Seq::<u32>::empty());
            return Ok(());
        }
        let ghost next = nexts(g.edges.slots@, dir);
        let ghost prev = prevs(g.edges.slots@, dir);
        let mut cur: u32 = head;
        let mut budget: u32 = MAX_EDGES as u32 + 1;
        let ghost mut s: Seq<u32> = Seq::empty();
        assert(head == g.hdr(node).spec_head(dir, kind));
        loop
            invariant_except_break
                cur < MAX_EDGES,
                budget + s.len() == MAX_EDGES + 1,
                s.push(cur)[0] == head,
                // The path so far: linked both ways, and not yet come round.
                forall|i: int| 0 <= i < s.len() ==> #[trigger] next[s[i] as int] == s.push(cur)[i + 1],
                forall|i: int| 1 <= i <= s.len() ==> #[trigger] prev[s.push(cur)[i] as int] == s[i - 1],
                forall|i: int| 1 <= i < s.len() ==> #[trigger] s[i] != head,
                s.len() > 0 ==> cur != head,
                s.no_duplicates(),
            invariant
                g.checkable(),
                g.spec_live(node),
                head != 0,
                head == g.hdr(node).spec_head(dir, kind),
                head < MAX_EDGES,
                whole == g.raw_list(node, dir, kind),
                next == nexts(g.edges.slots@, dir),
                prev == prevs(g.edges.slots@, dir),
                // And live, of the kind, of the node, and not met before.
                forall|i: int|
                    0 <= i < s.len() ==> g.edge_live(#[trigger] s[i])
                        && g.edges.slots@[s[i] as int].kind == kind.spec_code()
                        && g.edges.slots@[s[i] as int].endpoint(dir) == node && !old(self).seen(
                        dir,
                        s[i],
                    ),
                forall|e: u32|
                    e < MAX_EDGES ==> (#[trigger] self.seen(dir, e) <==> old(self).seen(dir, e)
                        || s.contains(e)),
                forall|e: u32|
                    e < MAX_EDGES ==> #[trigger] self.seen(dir.other(), e) == old(self).seen(
                        dir.other(),
                        e,
                    ),
            ensures
                crate::ring::ring(next, prev, s),
                s.len() > 0 && s[0] == head,
            decreases budget,
        {
            proof {
                path_in_walk(*g, node, dir, kind, s, cur);
                assert forall|i: int| 0 <= i < s.len() implies g.step_ok(
                    node,
                    dir,
                    kind,
                    #[trigger] s[i],
                ) by {
                    assert(next[s[i] as int] == s.push(cur)[i + 1]);
                    assert(prev[s.push(cur)[i + 1] as int] == s[i]);
                }
                assert(g.walk_ok(node, dir, kind, s.len() as int)) by {
                    assert forall|i: int| 0 <= i < s.len() implies g.step_ok(
                        node,
                        dir,
                        kind,
                        #[trigger] whole[i],
                    ) by {
                        assert(whole[i] == s[i]);
                    }
                }
                if s.len() > 0 {
                    assert(next[s[s.len() - 1] as int] == cur);
                    assert(whole[s.len() - 1] == s[s.len() - 1]);
                }
                assert(whole.take(s.len() as int) =~= s);
            }
            if budget == 0 {
                return Err(Violation::WalkOverrun { node });
            }
            budget = budget - 1;
            let e = g.edges.at(cur);
            if !e.is_live() {
                return Err(Violation::DeadEdgeInList { node, edge_idx: cur });
            }
            proof {
                assert(g.edge_live(cur));
                assert(g.edges.books().gens[0] == 0);
                assert(cur > 0);
                assert forall|i: int| 0 <= i < s.len() implies #[trigger] s[i] > 0 by {
                    assert(g.edge_live(s[i]));
                }
            }
            if e.kind != kind.code() {
                return Err(Violation::ListKindMismatch { node, edge_idx: cur, expected: kind });
            }
            let endpoint = match dir {
                Dir::Out => e.src,
                Dir::In => e.dst,
            };
            if endpoint != node {
                return Err(Violation::ListEndpointMismatch { node, edge_idx: cur });
            }
            let nx: u32 = e.next(dir);
            if g.edges.at(nx).prev(dir) != cur {
                proof {
                    if g.list_sound(node, dir, kind) {
                        back_link_holds(*g, node, dir, kind, cur);
                    }
                }
                return Err(Violation::BrokenBackLink { node, edge_idx: cur });
            }
            let ghost met = self.seen(dir, cur);
            let fresh: bool = self.note(dir, cur);
            if !fresh {
                proof {
                    if g.list_sound(node, dir, kind) {
                        assert(whole[s.len() as int] == cur);
                        if s.contains(cur) {
                            let j = s.index_of(cur);
                            assert(whole[j] == cur);
                        }
                        assert(met);
                        assert(old(self).seen(dir, cur));
                    }
                }
                return Err(Violation::DuplicateEdgeInList { node, edge_idx: cur });
            }
            let ghost s0 = s;
            proof {
                s = s0.push(cur);
                assert forall|x: u32| #[trigger] s.contains(x) <==> s0.contains(x) || x == cur by {
                    if s0.contains(x) {
                        let j = s0.index_of(x);
                        assert(s[j] == x);
                    }
                    assert(s[s.len() - 1] == cur);
                }
                assert(s.no_duplicates()) by {
                    assert(!s0.contains(cur));
                }
            }
            if nx == head {
                proof {
                    path_is_ring(*g, dir, s0, cur, head);
                }
                break;
            }
            proof {
                assert forall|i: int| 0 <= i < s.len() implies #[trigger] next[s[i] as int]
                    == s.push(nx)[i + 1] by {
                    if i < s0.len() {
                        assert(s[i] == s0[i]);
                        assert(s.push(nx)[i + 1] == s0.push(cur)[i + 1]);
                    }
                }
                assert forall|i: int| 1 <= i <= s.len() implies #[trigger] prev[s.push(
                    nx,
                )[i] as int] == s[i - 1] by {
                    if i <= s0.len() {
                        assert(s[i - 1] == s0[i - 1]);
                        assert(s.push(nx)[i] == s0.push(cur)[i]);
                    }
                }
                assert(s.push(nx)[0] == s0.push(cur)[0]);
            }
            cur = nx;
        }
        proof {
            crate::ring::ring_is_list(next, prev, s);
        }
        Ok(())
    }
}

/// Following a path from the head is how a walk starts.
proof fn walk_prefix(next: Seq<u32>, head: u32, s: Seq<u32>, cur: u32, fuel: nat)
    requires
        s.push(cur)[0] == head,
        forall|i: int| 0 <= i < s.len() ==> #[trigger] s[i] != 0,
        forall|i: int| 0 <= i < s.len() ==> #[trigger] next[s[i] as int] == s.push(cur)[i + 1],
        forall|i: int| 1 <= i < s.len() ==> #[trigger] s[i] != head,
        s.len() > 0 ==> cur != head,
        s.len() <= fuel,
    ensures
        crate::ring::walk_from(next, head, head, fuel) == s + crate::ring::walk_from(
            next,
            head,
            cur,
            (fuel - s.len()) as nat,
        ),
    decreases s.len(),
{
    if s.len() == 0 {
        assert(s + crate::ring::walk_from(next, head, cur, fuel) =~= crate::ring::walk_from(
            next,
            head,
            cur,
            fuel,
        ));
    } else {
        let t = s.drop_last();
        let last = s.last();
        assert(t.push(last) =~= s);
        assert forall|i: int| 0 <= i < t.len() implies #[trigger] next[t[i] as int] == t.push(
            last,
        )[i + 1] by {
            assert(t[i] == s[i]);
            assert(s.push(cur)[i + 1] == s[i + 1]);
        }
        assert forall|i: int| 0 <= i < t.len() implies #[trigger] t[i] != 0 by {
            assert(t[i] == s[i]);
        }
        assert forall|i: int| 1 <= i < t.len() implies #[trigger] t[i] != head by {
            assert(t[i] == s[i]);
        }
        assert(t.push(last)[0] == s[0] && s.push(cur)[0] == s[0]);
        assert(s[s.len() - 1] == last);
        walk_prefix(next, head, t, last, fuel);
        let f = (fuel - t.len()) as nat;
        assert(next[last as int] == s.push(cur)[s.len() as int]);
        assert(crate::ring::walk_from(next, head, last, f) == seq![last]
            + crate::ring::walk_from(next, head, cur, (f - 1) as nat));
        assert(t + (seq![last] + crate::ring::walk_from(next, head, cur, (f - 1) as nat)) =~= s
            + crate::ring::walk_from(next, head, cur, (f - 1) as nat));
    }
}

/// The path the checker has followed is the start of the list, and the edge it
/// stands on is the next of it.
proof fn path_in_walk(g: Graph, node: NodeId, dir: Dir, kind: EdgeKind, s: Seq<u32>, cur: u32)
    requires
        g.edges.wf(),
        cur < MAX_EDGES,
        s.push(cur)[0] == g.hdr(node).spec_head(dir, kind),
        g.hdr(node).spec_head(dir, kind) != 0,
        s.no_duplicates(),
        forall|i: int| 0 <= i < s.len() ==> g.edge_live(#[trigger] s[i]),
        forall|i: int|
            0 <= i < s.len() ==> #[trigger] nexts(g.edges.slots@, dir)[s[i] as int] == s.push(
                cur,
            )[i + 1],
        forall|i: int|
            1 <= i < s.len() ==> #[trigger] s[i] != g.hdr(node).spec_head(dir, kind),
        s.len() > 0 ==> cur != g.hdr(node).spec_head(dir, kind),
    ensures
        s.len() < MAX_EDGES,
        cur != 0 ==> g.raw_list(node, dir, kind).contains(cur),
        cur != 0 ==> g.raw_list(node, dir, kind).len() > s.len(),
        cur == 0 ==> g.raw_list(node, dir, kind).len() == s.len(),
        cur != 0 ==> g.raw_list(node, dir, kind)[s.len() as int] == cur,
        forall|i: int|
            0 <= i < s.len() ==> g.raw_list(node, dir, kind).len() > i && g.raw_list(
                node,
                dir,
                kind,
            )[i] == #[trigger] s[i],
        g.list_sound(node, dir, kind) ==> cur != 0,
{
    let head = g.hdr(node).spec_head(dir, kind);
    let next = nexts(g.edges.slots@, dir);
    let whole = g.raw_list(node, dir, kind);
    assert(g.edges.books().gens[0] == 0);
    assert forall|i: int| 0 <= i < s.len() implies 0 < #[trigger] s[i] < MAX_EDGES by {
        assert(g.edge_live(s[i]));
    }
    crate::ring::distinct_are_few(s, MAX_EDGES as nat);
    walk_prefix(next, head, s, cur, MAX_EDGES as nat);
    assert(next.len() == MAX_EDGES);
    let rest = crate::ring::walk_from(next, head, cur, (MAX_EDGES - s.len()) as nat);
    assert(whole == s + rest);
    if cur != 0 {
        assert(rest[0] == cur);
        assert(whole[s.len() as int] == cur);
    }
    if g.list_sound(node, dir, kind) {
        if s.len() > 0 {
            let n = whole.len() as int;
            let i = s.len() - 1;
            assert(whole[i] == s[i]);
            assert(next[whole[i] as int] == whole[crate::ring::succ(i, n)]);
            assert(s.push(cur)[i + 1] == cur);
        }
    }
}

/// In a sound list every edge's successor points back at it.
proof fn back_link_holds(g: Graph, node: NodeId, dir: Dir, kind: EdgeKind, cur: u32)
    requires
        g.list_sound(node, dir, kind),
        g.raw_list(node, dir, kind).contains(cur),
    ensures
        g.edges.slots@[g.edges.slots@[cur as int].spec_next(dir) as int].spec_prev(dir) == cur,
{
    let s = g.raw_list(node, dir, kind);
    let n = s.len() as int;
    let next = nexts(g.edges.slots@, dir);
    let prev = prevs(g.edges.slots@, dir);
    let i = s.index_of(cur);
    assert(s[i] == cur);
    let j = crate::ring::succ(i, n);
    assert(next[s[i] as int] == s[j]);
    assert(prev[s[j] as int] == s[crate::ring::pred(j, n)]);
}

/// A path that has come round to its head is a ring.
proof fn path_is_ring(g: Graph, dir: Dir, s0: Seq<u32>, cur: u32, head: u32)
    requires
        0 < cur < MAX_EDGES,
        s0.push(cur)[0] == head,
        s0.push(cur).no_duplicates(),
        forall|i: int| 0 <= i < s0.len() ==> g.edge_live(#[trigger] s0[i]) && s0[i] > 0,
        forall|i: int|
            0 <= i < s0.len() ==> #[trigger] nexts(g.edges.slots@, dir)[s0[i] as int] == s0.push(
                cur,
            )[i + 1],
        forall|i: int|
            1 <= i <= s0.len() ==> #[trigger] prevs(g.edges.slots@, dir)[s0.push(cur)[i] as int]
                == s0[i - 1],
        nexts(g.edges.slots@, dir)[cur as int] == head,
        prevs(g.edges.slots@, dir)[head as int] == cur,
    ensures
        crate::ring::ring(nexts(g.edges.slots@, dir), prevs(g.edges.slots@, dir), s0.push(cur)),
{
    let next = nexts(g.edges.slots@, dir);
    let prev = prevs(g.edges.slots@, dir);
    let s = s0.push(cur);
    let n = s.len() as int;
    assert forall|i: int| 0 <= i < s.len() implies 0 < #[trigger] s[i] < next.len() by {
        if i < s0.len() {
            assert(s[i] == s0[i]);
        }
    }
    assert forall|i: int| 0 <= i < s.len() implies #[trigger] next[s[i] as int]
        == s[crate::ring::succ(i, n)] by {
        if i < s0.len() {
            assert(s[i] == s0[i]);
        }
    }
    assert forall|i: int| 0 <= i < s.len() implies #[trigger] prev[s[i] as int]
        == s[crate::ring::pred(i, n)] by {
        if i > 0 {
            assert(prev[s0.push(cur)[i] as int] == s0[i - 1]);
            assert(s[i - 1] == s0[i - 1]);
        }
    }
}

proof fn no_bits(c: Checker)
    requires
        forall|i: int| 0 <= i < BITMAP_WORDS ==> c.seen_out@[i] == 0,
        forall|i: int| 0 <= i < BITMAP_WORDS ==> c.seen_in@[i] == 0,
    ensures
        c.clean(),
{
    reveal(crate::bits::bit);
    assert forall|d: Dir, e: u32| e < MAX_EDGES implies !#[trigger] c.seen(d, e) by {
        let b = (e % 64) as u64;
        assert(0u64 & (1u64 << b) == 0) by (bit_vector);
        assert(c.seen_out@[e as int / 64] == 0 && c.seen_in@[e as int / 64] == 0);
    }
}

impl Violation {
    /// What a complaint about one list says: of the first edge on it that is
    /// not as it should be, or was `met` on a list walked before.
    pub open spec fn about_list(
        self,
        g: Graph,
        node: NodeId,
        kind: EdgeKind,
        dir: Dir,
        met: spec_fn(u32) -> bool,
    ) -> bool {
        exists|n: int| #[trigger]
            g.walk_ok(node, dir, kind, n) && self.about_step(g, node, kind, dir, n, met)
    }

    /// What a complaint about the `n`-th edge of a list says. A list may also
    /// run into the slot that is never live.
    pub open spec fn about_step(
        self,
        g: Graph,
        node: NodeId,
        kind: EdgeKind,
        dir: Dir,
        n: int,
        met: spec_fn(u32) -> bool,
    ) -> bool {
        let s = g.raw_list(node, dir, kind);
        let e = if n < s.len() {
            s[n]
        } else {
            0u32
        };
        let x = g.edges.slots@[e as int];
        match self {
            Violation::WalkOverrun { node: m } => m == node && n >= MAX_EDGES,
            Violation::DeadEdgeInList { node: m, edge_idx } => m == node && edge_idx == e
                && !g.edge_live(e) && (n == s.len() ==> n > 0
                && g.edges.slots@[s[n - 1] as int].spec_next(dir) == 0),
            Violation::ListKindMismatch { node: m, edge_idx, expected } => m == node && edge_idx
                == e && expected == kind && n < s.len() && g.edge_live(e) && x.kind
                != kind.spec_code(),
            Violation::ListEndpointMismatch { node: m, edge_idx } => m == node && edge_idx == e && n
                < s.len() && g.edge_live(e) && x.kind == kind.spec_code() && x.endpoint(dir) != node,
            Violation::BrokenBackLink { node: m, edge_idx } => m == node && edge_idx == e && n
                < s.len() && g.edge_live(e) && x.kind == kind.spec_code() && x.endpoint(dir) == node
                && g.edges.slots@[x.spec_next(dir) as int].spec_prev(dir) != e,
            Violation::DuplicateEdgeInList { node: m, edge_idx } => m == node && edge_idx == e && n
                < s.len() && g.step_ok(node, dir, kind, e) && (met(e) || s.take(n).contains(e)),
            _ => false,
        }
    }
}

impl Graph {
    /// Every live node's header and lists are sound.
    pub open spec fn lists_sound(self) -> bool {
        &&& self.headers_ok()
        &&& forall|id: NodeId, d: Dir, k: EdgeKind|
            self.spec_live(id) ==> #[trigger] self.list_sound(id, d, k)
    }
}

/// Some list walked before the `k`-th kind of the `i`-th node holds the edge.
pub open spec fn walked(g: Graph, nodes: Seq<NodeId>, i: int, k: int, d: Dir, e: u32) -> bool {
    exists|j: int, kk: EdgeKind|
        0 <= j < nodes.len() && (j < i || j == i && kk.spec_code() < k) && #[trigger] g.raw_list(
            nodes[j],
            d,
            kk,
        ).contains(e)
}

/// In sound lists an edge met again is the same node's and the same kind's.
proof fn met_once(g: Graph, nodes: Seq<NodeId>, i: int, kind: EdgeKind, d: Dir, e: u32)
    requires
        g.lists_sound(),
        nodes.no_duplicates(),
        forall|j: int| 0 <= j < nodes.len() ==> g.spec_live(#[trigger] nodes[j]),
        0 <= i < nodes.len(),
        g.raw_list(nodes[i], d, kind).contains(e),
    ensures
        !walked(g, nodes, i, kind.spec_code() as int, d, e),
{
    if walked(g, nodes, i, kind.spec_code() as int, d, e) {
        let (j, kk) = choose|j: int, kk: EdgeKind|
            0 <= j < nodes.len() && (j < i || j == i && kk.spec_code() < kind.spec_code())
                && #[trigger] g.raw_list(nodes[j], d, kk).contains(e);
        assert(g.list_sound(nodes[j], d, kk) && g.list_sound(nodes[i], d, kind));
        let a = g.raw_list(nodes[j], d, kk);
        let b = g.raw_list(nodes[i], d, kind);
        let (x, y) = (a.index_of(e), b.index_of(e));
        assert(a[x] == e && b[y] == e);
    }
}

/// A complaint about a list rests only on which edges of the arena were met.
proof fn met_alike(
    v: Violation,
    g: Graph,
    node: NodeId,
    kind: EdgeKind,
    dir: Dir,
    a: spec_fn(u32) -> bool,
    b: spec_fn(u32) -> bool,
)
    requires
        v.about_list(g, node, kind, dir, a),
        forall|e: u32| e < MAX_EDGES ==> #[trigger] a(e) == b(e),
    ensures
        v.about_list(g, node, kind, dir, b),
{
    let n = choose|n: int| #[trigger]
        g.walk_ok(node, dir, kind, n) && v.about_step(g, node, kind, dir, n, a);
    let s = g.raw_list(node, dir, kind);
    if n < s.len() && g.edge_live(s[n]) {
        assert(a(s[n]) == b(s[n]));
    }
    assert(v.about_step(g, node, kind, dir, n, b));
}

impl Checker {
    /// Walk both lists of one kind of one node.
    fn check_pair(&mut self, g: &Graph, node: NodeId, kind: EdgeKind) -> (r: CheckResult)
        requires
            g.checkable(),
            g.spec_live(node),
        ensures
            r is Ok ==> g.list_sound(node, Dir::Out, kind) && g.list_sound(node, Dir::In, kind),
            g.list_sound(node, Dir::Out, kind) && g.list_sound(node, Dir::In, kind) && (forall|
                d: Dir,
                e: u32,
            |
                #[trigger] g.raw_list(node, d, kind).contains(e) ==> !old(self).seen(d, e))
                ==> r is Ok,
            r is Ok ==> forall|d: Dir, e: u32|
                e < MAX_EDGES ==> (#[trigger] final(self).seen(d, e) <==> old(self).seen(d, e)
                    || g.raw_list(node, d, kind).contains(e)),
            r matches Err(v) ==> {
                ||| v.about_list(*g, node, kind, Dir::Out, |e: u32| old(self).seen(Dir::Out, e))
                ||| g.list_sound(node, Dir::Out, kind) && v.about_list(
                    *g,
                    node,
                    kind,
                    Dir::In,
                    |e: u32| old(self).seen(Dir::In, e),
                )
            },
    {
        let ghost c0 = *self;
        proof {
            assert forall|d: Dir, i: int|
                (forall|d: Dir, e: u32| #[trigger]
                    g.raw_list(node, d, kind).contains(e) ==> !c0.seen(d, e)) && 0 <= i
                    < g.raw_list(node, d, kind).len() implies !c0.seen(
                d,
                #[trigger] g.raw_list(node, d, kind)[i],
            ) by {
                assert(g.raw_list(node, d, kind).contains(g.raw_list(node, d, kind)[i]));
            }
        }
        match self.check_list(g, node, kind, Dir::Out) {
            Err(v) => return Err(v),
            Ok(_) => {},
        }
        let ghost c1 = *self;
        proof {
            assert(Dir::Out.other() == Dir::In && Dir::In.other() == Dir::Out);
            assert forall|e: u32| e < MAX_EDGES implies #[trigger] c1.seen(Dir::In, e) == c0.seen(
                Dir::In,
                e,
            ) by {
                assert(c1.seen(Dir::Out.other(), e) == c0.seen(Dir::Out.other(), e));
            }
            if g.list_sound(node, Dir::In, kind) {
                assert forall|i: int| 0 <= i < g.raw_list(node, Dir::In, kind).len() implies
                    c1.seen(Dir::In, #[trigger] g.raw_list(node, Dir::In, kind)[i]) == c0.seen(
                    Dir::In,
                    g.raw_list(node, Dir::In, kind)[i],
                ) by {
                    assert(g.edge_live(g.raw_list(node, Dir::In, kind)[i]));
                }
            }
        }
        match self.check_list(g, node, kind, Dir::In) {
            Err(v) => {
                proof {
                    met_alike(
                        v,
                        *g,
                        node,
                        kind,
                        Dir::In,
                        |e: u32| c1.seen(Dir::In, e),
                        |e: u32| c0.seen(Dir::In, e),
                    );
                }
                return Err(v);
            },
            Ok(_) => {},
        }
        proof {
            assert forall|d: Dir, e: u32| e < MAX_EDGES implies (#[trigger] self.seen(d, e)
                <==> c0.seen(d, e) || g.raw_list(node, d, kind).contains(e)) by {
                if d == Dir::Out {
                    assert(self.seen(Dir::In.other(), e) == c1.seen(Dir::In.other(), e));
                    assert(c1.seen(Dir::Out, e) <==> c0.seen(Dir::Out, e) || g.raw_list(
                        node,
                        Dir::Out,
                        kind,
                    ).contains(e));
                } else {
                    assert(c1.seen(Dir::In, e) == c0.seen(Dir::In, e));
                }
            }
        }
        Ok(())
    }

    /// Walk every adjacency list once, marking edges seen in each direction.
    /// Linear in the number of edges in total.
    #[verifier::rlimit(40)]
    pub(crate) fn check_lists(&mut self, g: &Graph) -> (r: CheckResult)
        requires
            g.checkable(),
            old(self).clean(),
        ensures
            r is Ok <==> g.lists_sound(),
            r is Ok ==> forall|d: Dir, e: u32|
                e < MAX_EDGES && #[trigger] final(self).seen(d, e) ==> exists|id: NodeId, k: EdgeKind|
                    g.spec_live(id) && #[trigger] g.raw_list(id, d, k).contains(e),
            r is Ok ==> forall|d: Dir, e: u32, id: NodeId, k: EdgeKind|
                e < MAX_EDGES && g.spec_live(id) && #[trigger] g.raw_list(id, d, k).contains(e)
                    ==> final(self).seen(d, e),
            r matches Err(v) ==> v.about_some_list(*g),
    {
        let nodes = g.live_nodes();
        proof {
            crate::walk::every_live_node_is_listed(*g);
            assert forall|j: int| 0 <= j < nodes@.len() implies g.spec_live(
                #[trigger] nodes@[j],
            ) by {
                assert(nodes@.contains(nodes@[j]));
            }
            assert forall|d: Dir, e: u32| e < MAX_EDGES implies !self.seen(d, e)
                && !#[trigger] walked(*g, nodes@, 0, 0, d, e) by {
                assert(!self.seen(d, e));
            }
        }
        let mut i: usize = 0;
        while i < nodes.len()
            invariant
                i <= nodes@.len(),
                g.checkable(),
                nodes@.no_duplicates(),
                nodes@ == g.all_live_ids(),
                forall|j: int| 0 <= j < nodes@.len() ==> g.spec_live(#[trigger] nodes@[j]),
                g.sound_until(i as int),
                forall|d: Dir, e: u32|
                    e < MAX_EDGES ==> (#[trigger] self.seen(d, e) <==> walked(
                        *g,
                        nodes@,
                        i as int,
                        0,
                        d,
                        e,
                    )),
            decreases nodes@.len() - i,
        {
            let node = nodes[i];
            assert(g.spec_live(nodes@[i as int]));
            let header_kind: u8 = match g.header(node) {
                Some(h) => h.kind,
                None => 0,
            };
            if header_kind != node.kind_raw() {
                proof {
                    let v = Violation::HeaderKindMismatch { node, header_kind };
                    assert(v.about_lists_of(*g, i as int));
                }
                return Err(Violation::HeaderKindMismatch { node, header_kind });
            }
            let mut k: u8 = 0;
            while k < 7
                invariant
                    k <= 7,
                    i < nodes@.len(),
                    node == nodes@[i as int],
                    g.checkable(),
                    nodes@.no_duplicates(),
                    nodes@ == g.all_live_ids(),
                    forall|j: int| 0 <= j < nodes@.len() ==> g.spec_live(#[trigger] nodes@[j]),
                    g.sound_until(i as int),
                    g.hdr(node).kind == node.kind_raw(),
                    forall|kk: EdgeKind, d: Dir|
                        kk.spec_code() < k ==> #[trigger] g.list_sound(node, d, kk),
                    forall|d: Dir, e: u32|
                        e < MAX_EDGES ==> (#[trigger] self.seen(d, e) <==> walked(
                            *g,
                            nodes@,
                            i as int,
                            k as int,
                            d,
                            e,
                        )),
                decreases 7 - k,
            {
                let kind = match EdgeKind::from_u8(k) {
                    Some(kind) => kind,
                    None => EdgeKind::Owns,
                };
                assert(kind.spec_code() == k);
                let ghost c0 = *self;
                proof {
                    if g.lists_sound() {
                        assert forall|d: Dir, e: u32| #[trigger]
                            g.raw_list(node, d, kind).contains(e) implies !c0.seen(d, e) by {
                            met_once(*g, nodes@, i as int, kind, d, e);
                            assert(g.list_sound(node, d, kind));
                            let s = g.raw_list(node, d, kind);
                            let x = s.index_of(e);
                            assert(g.edge_live(s[x]));
                        }
                        assert(g.list_sound(node, Dir::Out, kind));
                        assert(g.list_sound(node, Dir::In, kind));
                    }
                }
                match self.check_pair(g, node, kind) {
                    Err(v) => {
                        proof {
                            complaint_placed(v, *g, i as int, kind, c0);
                        }
                        return Err(v);
                    },
                    Ok(_) => {},
                }
                proof {
                    assert forall|d: Dir, e: u32| e < MAX_EDGES implies (#[trigger] self.seen(d, e)
                        <==> walked(*g, nodes@, i as int, k + 1, d, e)) by {
                        walked_one_more(*g, nodes@, i as int, kind, d, e);
                    }
                    assert forall|kk: EdgeKind, d: Dir| kk.spec_code() < k + 1 implies
                        #[trigger] g.list_sound(node, d, kk) by {
                        if kk.spec_code() == k {
                            assert(kk == kind);
                            assert(g.list_sound(node, Dir::Out, kind) && g.list_sound(
                                node,
                                Dir::In,
                                kind,
                            ));
                        }
                    }
                }
                k = k + 1;
            }
            proof {
                assert forall|d: Dir, e: u32| e < MAX_EDGES implies (#[trigger] self.seen(d, e)
                    <==> walked(*g, nodes@, i + 1, 0, d, e)) by {
                    walked_all_kinds(*g, nodes@, i as int, d, e);
                }
                assert forall|j: int, d: Dir, k: EdgeKind| 0 <= j < i + 1 implies
                    #[trigger] g.list_sound(nodes@[j], d, k) by {
                    if j == i {
                        assert(k.spec_code() < 7);
                    }
                }
            }
            i = i + 1;
        }
        proof {
            assert forall|id: NodeId, d: Dir, k: EdgeKind| g.spec_live(id) implies
                #[trigger] g.list_sound(id, d, k) by {
                assert(nodes@.contains(id));
                let j = nodes@.index_of(id);
                assert(g.list_sound(nodes@[j], d, k));
            }
            assert forall|id: NodeId| #[trigger] g.spec_live(id) implies g.hdr(id).kind
                == id.kind_raw() by {
                assert(nodes@.contains(id));
                let j = nodes@.index_of(id);
                assert(g.hdr(nodes@[j]).kind == nodes@[j].kind_raw());
            }
            assert forall|d: Dir, e: u32|
                e < MAX_EDGES && #[trigger] self.seen(d, e) implies exists|id: NodeId, k: EdgeKind|
                g.spec_live(id) && #[trigger] g.raw_list(id, d, k).contains(e) by {
                assert(walked(*g, nodes@, i as int, 0, d, e));
                let (j, kk) = choose|j: int, kk: EdgeKind|
                    0 <= j < nodes@.len() && (j < i || j == i && kk.spec_code() < 0)
                        && #[trigger] g.raw_list(nodes@[j], d, kk).contains(e);
                assert(g.spec_live(nodes@[j]));
            }
            assert forall|d: Dir, e: u32, id: NodeId, k: EdgeKind|
                e < MAX_EDGES && g.spec_live(id) && #[trigger] g.raw_list(id, d, k).contains(
                    e,
                ) implies self.seen(d, e) by {
                assert(nodes@.contains(id));
                let j = nodes@.index_of(id);
                assert(g.raw_list(nodes@[j], d, k).contains(e));
                assert(walked(*g, nodes@, i as int, 0, d, e));
            }
        }
        Ok(())
    }
}

proof fn walked_one_more(g: Graph, nodes: Seq<NodeId>, i: int, kind: EdgeKind, d: Dir, e: u32)
    requires
        0 <= i < nodes.len(),
    ensures
        walked(g, nodes, i, kind.spec_code() + 1, d, e) <==> walked(
            g,
            nodes,
            i,
            kind.spec_code() as int,
            d,
            e,
        ) || g.raw_list(nodes[i], d, kind).contains(e),
{
    let k = kind.spec_code() as int;
    if walked(g, nodes, i, k + 1, d, e) {
        let (j, kk) = choose|j: int, kk: EdgeKind|
            0 <= j < nodes.len() && (j < i || j == i && kk.spec_code() < k + 1)
                && #[trigger] g.raw_list(nodes[j], d, kk).contains(e);
        if j == i && kk.spec_code() == k {
            assert(kk == kind);
        }
    }
    if g.raw_list(nodes[i], d, kind).contains(e) {
        assert(kind.spec_code() < k + 1);
    }
    if walked(g, nodes, i, k, d, e) {
        let (j, kk) = choose|j: int, kk: EdgeKind|
            0 <= j < nodes.len() && (j < i || j == i && kk.spec_code() < k) && #[trigger] g.raw_list(
                nodes[j],
                d,
                kk,
            ).contains(e);
        assert(j < i || j == i && kk.spec_code() < k + 1);
    }
}

proof fn walked_all_kinds(g: Graph, nodes: Seq<NodeId>, i: int, d: Dir, e: u32)
    requires
        0 <= i < nodes.len(),
    ensures
        walked(g, nodes, i + 1, 0, d, e) <==> walked(g, nodes, i, 7, d, e),
{
    if walked(g, nodes, i + 1, 0, d, e) {
        let (j, kk) = choose|j: int, kk: EdgeKind|
            0 <= j < nodes.len() && (j < i + 1 || j == i + 1 && kk.spec_code() < 0)
                && #[trigger] g.raw_list(nodes[j], d, kk).contains(e);
        assert(kk.spec_code() < 7);
        assert(j < i || j == i && kk.spec_code() < 7);
    }
    if walked(g, nodes, i, 7, d, e) {
        let (j, kk) = choose|j: int, kk: EdgeKind|
            0 <= j < nodes.len() && (j < i || j == i && kk.spec_code() < 7) && #[trigger] g.raw_list(
                nodes[j],
                d,
                kk,
            ).contains(e);
        assert(j < i + 1);
    }
}

/// What the walk of one kind's two lists complains of, placed among all the
/// lists.
proof fn complaint_placed(v: Violation, g: Graph, i: int, kind: EdgeKind, c: Checker)
    requires
        0 <= i < g.all_live_ids().len(),
        g.sound_until(i),
        g.hdr(g.all_live_ids()[i]).kind == g.all_live_ids()[i].kind_raw(),
        forall|kk: EdgeKind, d: Dir|
            kk.spec_code() < kind.spec_code() ==> #[trigger] g.list_sound(
                g.all_live_ids()[i],
                d,
                kk,
            ),
        forall|d: Dir, e: u32|
            e < MAX_EDGES ==> (#[trigger] c.seen(d, e) <==> walked(
                g,
                g.all_live_ids(),
                i,
                kind.spec_code() as int,
                d,
                e,
            )),
        v.about_list(g, g.all_live_ids()[i], kind, Dir::Out, |e: u32| c.seen(Dir::Out, e))
            || g.list_sound(g.all_live_ids()[i], Dir::Out, kind) && v.about_list(
            g,
            g.all_live_ids()[i],
            kind,
            Dir::In,
            |e: u32| c.seen(Dir::In, e),
        ),
    ensures
        v.about_some_list(g),
{
    let ids = g.all_live_ids();
    let node = ids[i];
    let k = kind.spec_code() as int;
    let dir = if v.about_list(g, node, kind, Dir::Out, |e: u32| c.seen(Dir::Out, e)) {
        Dir::Out
    } else {
        Dir::In
    };
    met_alike(
        v,
        g,
        node,
        kind,
        dir,
        |e: u32| c.seen(dir, e),
        |e: u32| walked(g, ids, i, k, dir, e),
    );
    assert(g.lists_before(node, kind, dir));
    assert(v.about_lists_of(g, i));
}

impl Violation {
    /// What a complaint about one node's header and lists says: of the header,
    /// or else of the first list that is not sound.
    pub open spec fn about_lists_of(self, g: Graph, i: int) -> bool {
        let ids = g.all_live_ids();
        if g.hdr(ids[i]).kind != ids[i].kind_raw() {
            self == (Violation::HeaderKindMismatch { node: ids[i], header_kind: g.hdr(ids[i]).kind })
        } else {
            exists|kind: EdgeKind, dir: Dir| #[trigger]
                g.lists_before(ids[i], kind, dir) && self.about_list(
                    g,
                    ids[i],
                    kind,
                    dir,
                    |e: u32| walked(g, ids, i, kind.spec_code() as int, dir, e),
                )
        }
    }

    /// A complaint about headers and lists is of the first live node, in the
    /// order of the arenas, with which something is wrong.
    pub open spec fn about_some_list(self, g: Graph) -> bool {
        exists|i: int|
            0 <= i < g.all_live_ids().len() && #[trigger] g.sound_until(i) && self.about_lists_of(
                g,
                i,
            )
    }
}

} // verus!

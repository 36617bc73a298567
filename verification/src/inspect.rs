//! Serialising the whole graph for userspace.
//!
//! A header carrying the non-graph register, and after it the nodes, an
//! adjacency table and the edges, grouped by source node and by kind. The
//! table says where each node's group starts, so a reader gets a usable index
//! for free and never has to search. Within a group the order is list order,
//! not sorted by target, because for `Ready` and `Waiting` that order *is* the
//! queue and losing it would throw away the most interesting thing in the
//! snapshot.

use vstd::prelude::*;

use crate::abi::{
    inspect_size, AdjacencyEntry, EdgeRecord, InspectHeader, NodeRecord, EDGE_FLAG_VIRTUAL,
    EDGE_KIND_RUNNING, INSPECT_MAGIC, INSPECT_VERSION,
};
use crate::body::{
    AddressSpace, Body, Cpu, Device, MemoryObject, NodeBody, Process, Root, Thread,
};
use crate::edge::{Dir, EdgeAttr, HoldsAttr, MapsAttr, NamedAttr, WaitingAttr};
use crate::graph::Graph;
use crate::id::{EdgeId, EdgeKind, NodeId, NodeKind};
use crate::limits::{HANDLE_SLOTS, MAX_EDGES};
use crate::view::GraphView;

verus! {

// ------------------------------------------------------------------- nodes ---

/// How many of the first `n` handles are in use.
pub open spec fn handles_used(h: Seq<u32>, n: int) -> int
    decreases n,
{
    if n <= 0 {
        0
    } else {
        handles_used(h, n - 1) + if h[n - 1] != 0 {
            1int
        } else {
            0
        }
    }
}

/// The two words a snapshot shows of a body.
pub open spec fn body_words(b: Body) -> (u64, u64) {
    match b {
        Body::Root(n) => (n.ticks, n.free_frames),
        Body::Cpu(n) => (n.current.0, 0),
        Body::Process(n) => (
            handles_used(n.handles@, HANDLE_SLOTS as int) as u64,
            (n.exit_code as i64) as u64,
        ),
        Body::Thread(n) => (n.state.spec_code() as u64, n.cr3),
        Body::AddressSpace(n) => (n.pml4_phys, n.mapping_count as u64),
        Body::MemoryObject(n) => (n.phys_base, (n.pages + n.flags.0 * 0x1_0000_0000) as u64),
        Body::Endpoint(_) => (0, 0),
        Body::Device(n) => (n.io_base as u64, n.class.spec_code() as u64),
    }
}

impl GraphView {
    /// What a snapshot shows of a node.
    pub open spec fn node_record(self, id: NodeId) -> NodeRecord {
        let w = body_words(self.nodes[id].body);
        NodeRecord { id: id.0, kind: id.kind_raw(), flags: self.nodes[id].flags, a: w.0, b: w.1 }
    }
}

pub(crate) fn count_handles(p: &Process) -> (r: u64)
    ensures
        r == handles_used(p.handles@, HANDLE_SLOTS as int),
        r <= HANDLE_SLOTS,
{
    let mut n: u64 = 0;
    let mut i: usize = 0;
    while i < HANDLE_SLOTS
        invariant
            i <= HANDLE_SLOTS,
            n <= i,
            n == handles_used(p.handles@, i as int),
        decreases HANDLE_SLOTS - i,
    {
        if p.handles[i] != 0 {
            n = n + 1;
        }
        i = i + 1;
    }
    n
}

/// The two words a snapshot shows of a live node.
fn words_of(g: &Graph, id: NodeId) -> (r: (u64, u64))
    requires
        g.wf(),
        g@.live(id),
    ensures
        r == body_words(g@.nodes[id].body),
{
    proof {
        assert(g@.nodes.contains_key(id));
        assert(g@.node_ok(id));
    }
    if let Some(x) = g.typed::<Root>(id) {
        if let Some(n) = g.body(x) {
            return (n.ticks, n.free_frames);
        }
    }
    if let Some(x) = g.typed::<Cpu>(id) {
        if let Some(n) = g.body(x) {
            return (n.current.0, 0);
        }
    }
    if let Some(x) = g.typed::<Process>(id) {
        if let Some(n) = g.body(x) {
            return (count_handles(n), #[verifier::truncate] ((n.exit_code as i64) as u64));
        }
    }
    if let Some(x) = g.typed::<Thread>(id) {
        if let Some(n) = g.body(x) {
            return (n.state.code() as u64, n.cr3);
        }
    }
    if let Some(x) = g.typed::<AddressSpace>(id) {
        if let Some(n) = g.body(x) {
            return (n.pml4_phys, n.mapping_count as u64);
        }
    }
    if let Some(x) = g.typed::<MemoryObject>(id) {
        if let Some(n) = g.body(x) {
            return (n.phys_base, n.pages as u64 + n.flags.0 as u64 * 0x1_0000_0000);
        }
    }
    if let Some(x) = g.typed::<Device>(id) {
        if let Some(n) = g.body(x) {
            return (n.io_base as u64, n.class.code() as u64);
        }
    }
    (0, 0)
}

/// What a snapshot shows of a live node.
pub fn node_record(g: &Graph, id: NodeId) -> (r: NodeRecord)
    requires
        g.wf(),
        g@.live(id),
    ensures
        r == g@.node_record(id),
{
    let (a, b): (u64, u64) = words_of(g, id);
    let flags: u8 = match g.header(id) {
        Some(h) => h.flags,
        None => 0,
    };
    NodeRecord { id: id.0, kind: id.kind_raw(), flags, a, b }
}

// ------------------------------------------------------------------- edges ---

/// The first sixteen bytes of a name, so a decoder can label the picture.
pub open spec fn name_prefix(n: NamedAttr) -> Seq<u8> {
    Seq::new(
        16,
        |i: int|
            if i < n.len {
                n.bytes@[i]
            } else {
                0
            },
    )
}

/// The two words a snapshot shows of an edge's attributes.
pub open spec fn edge_words(kind: EdgeKind, data: Seq<u8>) -> (u64, u64) {
    match kind {
        EdgeKind::Holds => {
            let a = HoldsAttr::spec_decode(data);
            (a.rights.0 as u64, a.slot as u64)
        },
        EdgeKind::Maps => {
            let a = MapsAttr::spec_decode(data);
            (a.vaddr, (a.len_pages + a.prot.0 * 0x1_0000_0000) as u64)
        },
        EdgeKind::Named => {
            let p = name_prefix(NamedAttr::spec_decode(data));
            (crate::edge::le64(p, 0), crate::edge::le64(p, 8))
        },
        EdgeKind::Waiting => {
            let a = WaitingAttr::spec_decode(data);
            (a.role.spec_code() as u64, a.badge)
        },
        _ => (0, 0),
    }
}

impl GraphView {
    /// What a snapshot shows of an edge.
    pub open spec fn edge_record(self, e: u32) -> EdgeRecord {
        let x = self.edges[e];
        let w = edge_words(x.kind, x.data);
        EdgeRecord {
            src: x.src.0,
            dst: x.dst.0,
            kind: x.kind.spec_code(),
            flags: 0,
            a: w.0,
            b: w.1,
        }
    }

    /// A cpu that is running something.
    pub open spec fn is_running(self, id: NodeId) -> bool {
        self.nodes[id].body is Cpu && !self.cpu(id).current.is_null()
    }

    /// The one relationship the kernel keeps as a field rather than an edge,
    /// reported as an edge and flagged as such.
    pub open spec fn running_record(self, id: NodeId) -> Seq<EdgeRecord> {
        if self.is_running(id) {
            seq![
                EdgeRecord {
                    src: id.0,
                    dst: self.cpu(id).current.0,
                    kind: EDGE_KIND_RUNNING,
                    flags: EDGE_FLAG_VIRTUAL,
                    a: 0,
                    b: 0,
                },
            ]
        } else {
            Seq::empty()
        }
    }

    /// The edges of the first `k` kinds that leave a node, in kind and list
    /// order.
    pub open spec fn out_of(self, id: NodeId, k: int) -> Seq<u32>
        decreases k,
    {
        if k <= 0 {
            Seq::empty()
        } else {
            self.out_of(id, k - 1) + self.list(
                id,
                Dir::Out,
                EdgeKind::spec_from_u8((k - 1) as u8)->Some_0,
            )
        }
    }

    /// The records of those edges.
    pub open spec fn records_of(self, s: Seq<u32>) -> Seq<EdgeRecord> {
        Seq::new(s.len(), |i: int| self.edge_record(s[i]))
    }

    /// Every edge record of a node.
    pub open spec fn node_edges(self, id: NodeId) -> Seq<EdgeRecord> {
        self.records_of(self.out_of(id, 7)) + self.running_record(id)
    }

    /// The edge records of the first `n` of the nodes.
    pub open spec fn edges_below(self, ids: Seq<NodeId>, n: int) -> Seq<EdgeRecord>
        decreases n,
    {
        if n <= 0 {
            Seq::empty()
        } else {
            self.edges_below(ids, n - 1) + self.node_edges(ids[n - 1])
        }
    }

    /// The graph's edges among the first `n` of the nodes' out-lists.
    pub open spec fn index_below(self, ids: Seq<NodeId>, n: int) -> Seq<u32>
        decreases n,
    {
        if n <= 0 {
            Seq::empty()
        } else {
            self.index_below(ids, n - 1) + self.out_of(ids[n - 1], 7)
        }
    }

    /// How many of the first `n` of the nodes are cpus that run something.
    pub open spec fn running_below(self, ids: Seq<NodeId>, n: int) -> int
        decreases n,
    {
        if n <= 0 {
            0
        } else {
            self.running_below(ids, n - 1) + if self.is_running(ids[n - 1]) {
                1int
            } else {
                0
            }
        }
    }
}

/// What a snapshot shows of a live edge.
pub fn edge_record(g: &Graph, eid: EdgeId) -> (r: EdgeRecord)
    requires
        g.wf(),
        g@.has_edge(eid),
    ensures
        r == g@.edge_record(eid.idx()),
{
    let e = match g.edge(eid) {
        Some(e) => e,
        None => return EdgeRecord { src: 0, dst: 0, kind: 0, flags: 0, a: 0, b: 0 },
    };
    proof {
        assert(g.edge_live(eid.idx()));
    }
    let (a, b): (u64, u64) = match e.edge_kind() {
        Some(EdgeKind::Holds) => {
            let x = HoldsAttr::decode(e.data);
            (x.rights.0 as u64, x.slot as u64)
        },
        Some(EdgeKind::Maps) => {
            let x = MapsAttr::decode(e.data);
            (x.vaddr, x.len_pages as u64 + x.prot.0 as u64 * 0x1_0000_0000)
        },
        Some(EdgeKind::Named) => {
            let n = NamedAttr::decode(e.data);
            let mut buf: Vec<u8> = Vec::new();
            let mut i: usize = 0;
            while i < 16
                invariant
                    i <= 16,
                    buf@.len() == i,
                    forall|j: int| 0 <= j < i ==> #[trigger] buf@[j] == name_prefix(n)[j],
                decreases 16 - i,
            {
                let c: u8 = if i < n.len as usize {
                    n.bytes[i]
                } else {
                    0
                };
                buf.push(c);
                i = i + 1;
            }
            assert(buf@ =~= name_prefix(n));
            (crate::mem::read_u64(buf.as_slice(), 0), crate::mem::read_u64(buf.as_slice(), 8))
        },
        Some(EdgeKind::Waiting) => {
            let x = WaitingAttr::decode(e.data);
            (x.role.code() as u64, x.badge)
        },
        _ => (0, 0),
    };
    EdgeRecord { src: e.src.0, dst: e.dst.0, kind: e.kind, flags: 0, a, b }
}

// ---------------------------------------------------------------- counting ---

/// What leaves a node is its edges of those kinds, each once.
pub proof fn out_of_lists(v: GraphView, id: NodeId, k: int)
    requires
        v.wf(),
        v.live(id),
        0 <= k <= 7,
    ensures
        v.out_of(id, k).no_duplicates(),
        forall|e: u32| #[trigger]
            v.out_of(id, k).contains(e) <==> v.edges.contains_key(e) && v.edges[e].src == id
                && v.edges[e].kind.spec_code() < k,
    decreases k,
{
    if k > 0 {
        out_of_lists(v, id, k - 1);
        let kind = EdgeKind::spec_from_u8((k - 1) as u8)->Some_0;
        let a = v.out_of(id, k - 1);
        let b = v.list(id, Dir::Out, kind);
        let c = a + b;
        assert(kind.spec_code() == k - 1);
        assert(v.lists.contains_key((id, Dir::Out, kind)));
        assert(v.list_ok((id, Dir::Out, kind)));
        assert forall|e: u32| #[trigger] c.contains(e) <==> a.contains(e) || b.contains(e) by {
            if a.contains(e) {
                let i = a.index_of(e);
                assert(c[i] == e);
            }
            if b.contains(e) {
                let i = b.index_of(e);
                assert(c[a.len() + i] == e);
            }
            if c.contains(e) {
                let i = c.index_of(e);
                if i < a.len() {
                    assert(a[i] == e);
                } else {
                    assert(b[i - a.len()] == e);
                }
            }
        }
        assert forall|e: u32| #[trigger] b.contains(e) <==> v.edges.contains_key(e)
            && v.edges[e].src == id && v.edges[e].kind == kind by {
            if b.contains(e) {
                let i = b.index_of(e);
                assert(v.edges.contains_key(b[i]));
            }
            if v.edges.contains_key(e) && v.edges[e].src == id && v.edges[e].kind == kind {
                assert(v.edge_ok(e));
            }
        }
        assert forall|i: int, j: int| 0 <= i < c.len() && 0 <= j < c.len() && i != j implies c[i]
            != c[j] by {
            if i < a.len() && j >= a.len() {
                assert(a.contains(c[i]));
                assert(b.contains(c[j]));
            }
            if j < a.len() && i >= a.len() {
                assert(a.contains(c[j]));
                assert(b.contains(c[i]));
            }
        }
        assert forall|e: u32| #[trigger] c.contains(e) <==> v.edges.contains_key(e)
            && v.edges[e].src == id && v.edges[e].kind.spec_code() < k by {
            assert(a.contains(e) <==> v.edges.contains_key(e) && v.edges[e].src == id
                && v.edges[e].kind.spec_code() < k - 1);
            assert(v.edges[e].kind.spec_code() == k - 1 ==> v.edges[e].kind == kind);
        }
    }
}

/// What leaves the first nodes is the edges that start there, each once.
proof fn index_lists(v: GraphView, ids: Seq<NodeId>, n: int)
    requires
        v.wf(),
        ids.no_duplicates(),
        0 <= n <= ids.len(),
        forall|i: int| 0 <= i < ids.len() ==> v.live(#[trigger] ids[i]),
    ensures
        v.index_below(ids, n).no_duplicates(),
        forall|e: u32| #[trigger]
            v.index_below(ids, n).contains(e) <==> v.edges.contains_key(e) && exists|i: int|
                0 <= i < n && #[trigger] ids[i] == v.edges[e].src,
    decreases n,
{
    if n > 0 {
        index_lists(v, ids, n - 1);
        let id = ids[n - 1];
        out_of_lists(v, id, 7);
        let a = v.index_below(ids, n - 1);
        let b = v.out_of(id, 7);
        let c = a + b;
        assert forall|e: u32| #[trigger] c.contains(e) <==> a.contains(e) || b.contains(e) by {
            if a.contains(e) {
                let i = a.index_of(e);
                assert(c[i] == e);
            }
            if b.contains(e) {
                let i = b.index_of(e);
                assert(c[a.len() + i] == e);
            }
            if c.contains(e) {
                let i = c.index_of(e);
                if i < a.len() {
                    assert(a[i] == e);
                } else {
                    assert(b[i - a.len()] == e);
                }
            }
        }
        assert forall|e: u32| #[trigger] c.contains(e) <==> v.edges.contains_key(e) && exists|i: int|
            0 <= i < n && #[trigger] ids[i] == v.edges[e].src by {
            assert(v.edges[e].kind.spec_code() < 7);
            if a.contains(e) {
                let i = choose|i: int| 0 <= i < n - 1 && #[trigger] ids[i] == v.edges[e].src;
                assert(ids[i] == v.edges[e].src);
            }
            if b.contains(e) {
                assert(ids[n - 1] == v.edges[e].src);
            }
            if v.edges.contains_key(e) && exists|i: int|
                0 <= i < n && #[trigger] ids[i] == v.edges[e].src {
                let i = choose|i: int| 0 <= i < n && #[trigger] ids[i] == v.edges[e].src;
                if i < n - 1 {
                    assert(a.contains(e));
                } else {
                    assert(b.contains(e));
                }
            }
        }
        assert forall|i: int, j: int| 0 <= i < c.len() && 0 <= j < c.len() && i != j implies c[i]
            != c[j] by {
            if i < a.len() && j >= a.len() {
                different_sources(v, ids, n, a, b, c[i], c[j]);
            }
            if j < a.len() && i >= a.len() {
                different_sources(v, ids, n, a, b, c[j], c[i]);
            }
        }
    }
}

proof fn different_sources(
    v: GraphView,
    ids: Seq<NodeId>,
    n: int,
    a: Seq<u32>,
    b: Seq<u32>,
    x: u32,
    y: u32,
)
    requires
        0 < n <= ids.len(),
        ids.no_duplicates(),
        forall|e: u32| #[trigger]
            a.contains(e) <==> v.edges.contains_key(e) && exists|i: int|
                0 <= i < n - 1 && #[trigger] ids[i] == v.edges[e].src,
        forall|e: u32| #[trigger] b.contains(e) ==> v.edges[e].src == ids[n - 1],
        exists|i: int| 0 <= i < a.len() && a[i] == x,
        exists|i: int| 0 <= i < b.len() && b[i] == y,
    ensures
        x != y,
{
    assert(a.contains(x));
    assert(b.contains(y));
    if x == y {
        let i = choose|i: int| 0 <= i < n - 1 && #[trigger] ids[i] == v.edges[x].src;
        assert(ids[i] == ids[n - 1]);
    }
}

/// Every live edge leaves some live node: the lists hold as many as there are.
pub proof fn every_edge_is_on_one_list(g: Graph)
    requires
        g.wf(),
    ensures
        g@.index_below(g.all_live_ids(), g.all_live_ids().len() as int).len()
            == crate::arena::count_live(g.edges.books().gens),
{
    let v = g@;
    let ids = g.all_live_ids();
    crate::walk::every_live_node_is_listed(g);
    assert forall|i: int| 0 <= i < ids.len() implies v.live(#[trigger] ids[i]) by {
        assert(ids.contains(ids[i]));
        assert(g.spec_live(ids[i]));
    }
    let n = ids.len() as int;
    index_lists(v, ids, n);
    let s = v.index_below(ids, n);
    let gens = g.edges.books().gens;
    assert(gens.len() == MAX_EDGES);
    crate::arena::live_below_lists(gens, MAX_EDGES as int);
    let t = crate::arena::live_below(gens, MAX_EDGES as int);
    assert(gens.subrange(0, MAX_EDGES as int) =~= gens);
    assert forall|i: int, j: int| 0 <= i < t.len() && 0 <= j < t.len() && i != j implies t[i] != t[j] by {
        if i < j {
            assert(t[i] < t[j]);
        } else {
            assert(t[j] < t[i]);
        }
    }
    assert forall|e: u32| s.to_set().contains(e) <==> t.to_set().contains(e) by {
        if s.contains(e) {
            assert(v.edges.contains_key(e));
            assert(g.edge_live(e));
            assert(t.contains(e));
        }
        if t.contains(e) {
            let i = t.index_of(e);
            assert(t[i] == e);
            assert(crate::arena::is_odd(gens[e as int]));
            assert(g.edge_live(e));
            assert(v.edges.contains_key(e));
            assert(v.edge_ok(e));
            let src = v.edges[e].src;
            assert(g.spec_live(src));
            assert(ids.contains(src));
            let k = ids.index_of(src);
            assert(ids[k] == src);
            assert(s.contains(e));
        }
    }
    assert(s.to_set() =~= t.to_set());
    s.unique_seq_to_set();
    t.unique_seq_to_set();
}

/// The listing of live nodes is as long as the count of them.
pub proof fn live_nodes_are_counted(g: Graph)
    requires
        g.arenas_ok(),
    ensures
        g.all_live_ids().len() == g.live_nodes_total(),
{
    assert forall|k: NodeKind| #[trigger] g.live_ids(k).len() == crate::arena::count_live(
        g.books(k).gens,
    ) by {
        let b = g.books(k);
        assert(b.wf());
        assert(b.gens.len() == Graph::cap(k));
        crate::arena::live_below_lists(b.gens, Graph::cap(k));
        assert(b.gens.subrange(0, Graph::cap(k)) =~= b.gens);
    }
    assert(g.live_ids(NodeKind::Root).len() == crate::arena::count_live(
        g.books(NodeKind::Root).gens,
    ));
    assert(g.live_ids(NodeKind::Cpu).len() == crate::arena::count_live(
        g.books(NodeKind::Cpu).gens,
    ));
    assert(g.live_ids(NodeKind::Process).len() == crate::arena::count_live(
        g.books(NodeKind::Process).gens,
    ));
    assert(g.live_ids(NodeKind::Thread).len() == crate::arena::count_live(
        g.books(NodeKind::Thread).gens,
    ));
    assert(g.live_ids(NodeKind::AddressSpace).len() == crate::arena::count_live(
        g.books(NodeKind::AddressSpace).gens,
    ));
    assert(g.live_ids(NodeKind::MemoryObject).len() == crate::arena::count_live(
        g.books(NodeKind::MemoryObject).gens,
    ));
    assert(g.live_ids(NodeKind::Endpoint).len() == crate::arena::count_live(
        g.books(NodeKind::Endpoint).gens,
    ));
    assert(g.live_ids(NodeKind::Device).len() == crate::arena::count_live(
        g.books(NodeKind::Device).gens,
    ));
}

/// The records are the edges and the running threads.
proof fn records_counted(v: GraphView, ids: Seq<NodeId>, n: int)
    requires
        0 <= n <= ids.len(),
    ensures
        v.edges_below(ids, n).len() == v.index_below(ids, n).len() + v.running_below(ids, n),
        0 <= v.running_below(ids, n) <= n,
    decreases n,
{
    if n > 0 {
        records_counted(v, ids, n - 1);
    }
}

impl Graph {
    /// How many cpus run something.
    pub open spec fn running_total(self) -> int {
        self@.running_below(self.all_live_ids(), self.all_live_ids().len() as int)
    }

    /// How many edge records a snapshot has.
    pub open spec fn records_total(self) -> int {
        crate::arena::count_live(self.edges.books().gens) + self.running_total()
    }
}

/// How many virtual edges a snapshot will carry.
pub fn virtual_edge_count(g: &Graph) -> (r: u32)
    requires
        g.wf(),
    ensures
        r == g.running_total(),
        r <= 921,
{
    let ghost v = g@;
    let nodes = g.live_nodes();
    proof {
        crate::walk::every_live_node_is_listed(*g);
        live_nodes_are_counted(*g);
        crate::reap::few_nodes(*g);
    }
    let mut n: u32 = 0;
    let mut i: usize = 0;
    while i < nodes.len()
        invariant
            i <= nodes@.len() <= 921,
            g.wf(),
            v == g@,
            nodes@ == g.all_live_ids(),
            forall|x: NodeId| #[trigger] g.all_live_ids().contains(x) <==> g.spec_live(x),
            n == v.running_below(nodes@, i as int),
            n <= i,
        decreases nodes@.len() - i,
    {
        let id = nodes[i];
        assert(nodes@.contains(nodes@[i as int]));
        if runs(g, id).is_some() {
            n = n + 1;
        }
        i = i + 1;
    }
    n
}

/// What a live cpu is running, if the node is one and it is.
fn runs(g: &Graph, id: NodeId) -> (r: Option<NodeId>)
    requires
        g.wf(),
        g.spec_live(id),
    ensures
        r is Some <==> g@.is_running(id),
        r matches Some(t) ==> t == g@.cpu(id).current,
{
    proof {
        assert(g@.nodes.contains_key(id));
        assert(g@.node_ok(id));
    }
    match g.typed::<Cpu>(id) {
        Some(c) => match g.body(c) {
            Some(b) => if b.current.is_null() {
                None
            } else {
                Some(b.current)
            },
            None => None,
        },
        None => None,
    }
}

/// Bytes a snapshot of the current graph needs.
pub fn snapshot_size(g: &Graph) -> (r: usize)
    requires
        g.wf(),
    ensures
        r == crate::abi::snapshot_bytes(g.live_nodes_total() as int, g.records_total()),
{
    let v: u32 = virtual_edge_count(g);
    proof {
        crate::reap::few_nodes(*g);
        crate::arena::count_live_bound(g.edges.books().gens);
        assert(g.edges.books().gens.len() == MAX_EDGES);
    }
    inspect_size(g.node_count(), g.edge_count() + v)
}

// --------------------------------------------------------------- snapshots ---

impl Graph {
    /// The node records of a snapshot.
    pub open spec fn snapshot_nodes(self) -> Seq<NodeRecord> {
        Seq::new(self.all_live_ids().len(), |i: int| self@.node_record(self.all_live_ids()[i]))
    }

    /// The adjacency table: where each node's edges start, and how many.
    pub open spec fn snapshot_adjacency(self) -> Seq<AdjacencyEntry> {
        Seq::new(
            self.all_live_ids().len(),
            |i: int|
                AdjacencyEntry {
                    first: self@.edges_below(self.all_live_ids(), i).len() as u32,
                    count: self@.node_edges(self.all_live_ids()[i]).len() as u32,
                },
        )
    }

    /// The edge records of a snapshot.
    pub open spec fn snapshot_edges(self) -> Seq<EdgeRecord> {
        self@.edges_below(self.all_live_ids(), self.all_live_ids().len() as int)
    }

    /// What the root says of the non-graph register, zeroes without a root.
    pub open spec fn register(self) -> (u64, u64, u64) {
        if !self@.root_id.is_null() && self@.live(self@.root_id) {
            let r = self@.root_body();
            (r.total_frames, r.free_frames, r.ticks)
        } else {
            (0, 0, 0)
        }
    }

    pub open spec fn snapshot_header(self) -> InspectHeader {
        let nodes = self.all_live_ids().len();
        InspectHeader {
            magic: INSPECT_MAGIC,
            version: INSPECT_VERSION,
            seq: self@.seq as u64,
            node_count: nodes as u32,
            edge_count: self.snapshot_edges().len() as u32,
            node_offset: 64,
            adjacency_offset: (64 + 32 * nodes) as u32,
            edge_offset: (64 + 40 * nodes) as u32,
            total_frames: self.register().0,
            free_frames: self.register().1,
            ticks: self.register().2,
        }
    }

    /// The whole snapshot, as bytes.
    pub open spec fn snapshot(self) -> Seq<u8> {
        self.snapshot_header().bytes() + node_table(self.snapshot_nodes()) + adjacency_table(
            self.snapshot_adjacency(),
        ) + edge_table(self.snapshot_edges())
    }
}

pub open spec fn node_table(s: Seq<NodeRecord>) -> Seq<u8>
    decreases s.len(),
{
    if s.len() == 0 {
        Seq::empty()
    } else {
        node_table(s.drop_last()) + s.last().bytes()
    }
}

pub open spec fn adjacency_table(s: Seq<AdjacencyEntry>) -> Seq<u8>
    decreases s.len(),
{
    if s.len() == 0 {
        Seq::empty()
    } else {
        adjacency_table(s.drop_last()) + s.last().bytes()
    }
}

pub open spec fn edge_table(s: Seq<EdgeRecord>) -> Seq<u8>
    decreases s.len(),
{
    if s.len() == 0 {
        Seq::empty()
    } else {
        edge_table(s.drop_last()) + s.last().bytes()
    }
}

/// Append the edge records of one node.
fn push_edges(g: &Graph, id: NodeId, out: &mut Vec<EdgeRecord>)
    requires
        g.wf(),
        g.spec_live(id),
    ensures
        final(out)@ == old(out)@ + g@.node_edges(id),
{
    let ghost v = g@;
    let ghost o = out@;
    proof {
        crate::walk::wf_is_threaded(*g);
    }
    let mut k: u8 = 0;
    assert(out@ =~= o + v.records_of(v.out_of(id, 0)));
    while k < 7
        invariant
            k <= 7,
            g.wf(),
            g.threaded(),
            g.spec_live(id),
            v == g@,
            o == old(out)@,
            out@ == o + v.records_of(v.out_of(id, k as int)),
        decreases 7 - k,
    {
        let kind = match EdgeKind::from_u8(k) {
            Some(x) => x,
            None => EdgeKind::Owns,
        };
        let ids = crate::checks::outgoing(g, id, kind);
        let ghost list = v.list(id, Dir::Out, kind);
        let ghost before = out@;
        let mut i: usize = 0;
        while i < ids.len()
            invariant
                i <= ids@.len() == list.len(),
                g.wf(),
                v == g@,
                list == v.list(id, Dir::Out, kind),
                forall|j: int|
                    0 <= j < ids@.len() ==> (#[trigger] ids@[j]).idx() == list[j] && v.has_edge(
                        ids@[j],
                    ),
                out@ == before + v.records_of(list.take(i as int)),
            decreases ids@.len() - i,
        {
            let r = edge_record(g, ids[i]);
            assert(ids@[i as int].idx() == list[i as int]);
            out.push(r);
            i = i + 1;
            assert(out@ =~= before + v.records_of(list.take(i as int)));
        }
        proof {
            assert(list.take(list.len() as int) =~= list);
            assert(out@ =~= o + v.records_of(v.out_of(id, k + 1)));
        }
        k = k + 1;
    }
    match runs(g, id) {
        Some(t) => {
            out.push(
                EdgeRecord {
                    src: id.0,
                    dst: t.0,
                    kind: EDGE_KIND_RUNNING,
                    flags: EDGE_FLAG_VIRTUAL,
                    a: 0,
                    b: 0,
                },
            );
        },
        None => {},
    }
    assert(out@ =~= o + v.node_edges(id));
}

/// Gather the records of a snapshot.
fn gather(g: &Graph) -> (r: (Vec<NodeRecord>, Vec<AdjacencyEntry>, Vec<EdgeRecord>))
    requires
        g.wf(),
    ensures
        r.0@ == g.snapshot_nodes(),
        r.1@ == g.snapshot_adjacency(),
        r.2@ == g.snapshot_edges(),
{
    let ghost v = g@;
    let nodes = g.live_nodes();
    proof {
        crate::walk::every_live_node_is_listed(*g);
    }
    let mut recs: Vec<NodeRecord> = Vec::new();
    let mut adj: Vec<AdjacencyEntry> = Vec::new();
    let mut edges: Vec<EdgeRecord> = Vec::new();
    let mut i: usize = 0;
    while i < nodes.len()
        invariant
            i <= nodes@.len(),
            g.wf(),
            v == g@,
            nodes@ == g.all_live_ids(),
            forall|x: NodeId| #[trigger] g.all_live_ids().contains(x) <==> g.spec_live(x),
            recs@ == g.snapshot_nodes().take(i as int),
            adj@ == g.snapshot_adjacency().take(i as int),
            edges@ == v.edges_below(nodes@, i as int),
        decreases nodes@.len() - i,
    {
        let id = nodes[i];
        assert(nodes@.contains(nodes@[i as int]));
        assert(v.nodes.contains_key(id));
        recs.push(node_record(g, id));
        let first: usize = edges.len();
        push_edges(g, id, &mut edges);
        let count: usize = edges.len() - first;
        adj.push(
            AdjacencyEntry {
                first: #[verifier::truncate] (first as u32),
                count: #[verifier::truncate] (count as u32),
            },
        );
        proof {
            assert(recs@ =~= g.snapshot_nodes().take(i + 1));
            assert(adj@ =~= g.snapshot_adjacency().take(i + 1));
        }
        i = i + 1;
    }
    proof {
        assert(g.snapshot_nodes().take(nodes@.len() as int) =~= g.snapshot_nodes());
        assert(g.snapshot_adjacency().take(nodes@.len() as int) =~= g.snapshot_adjacency());
    }
    (recs, adj, edges)
}

/// What the root says of the non-graph register.
fn read_register(g: &Graph) -> (r: (u64, u64, u64))
    requires
        g.wf(),
    ensures
        r == g.register(),
{
    match g.root() {
        Some(root) => match g.body(root) {
            Some(b) => {
                proof {
                    assert(g@.nodes.contains_key(root.id()));
                    assert(g@.node_ok(root.id()));
                }
                (b.total_frames, b.free_frames, b.ticks)
            },
            None => (0, 0, 0),
        },
        None => (0, 0, 0),
    }
}

/// A node record is 32 bytes long, and so on for each of the table.
proof fn node_table_length(n: Seq<NodeRecord>)
    ensures
        node_table(n).len() == 32 * n.len(),
    decreases n.len(),
{
    if n.len() > 0 {
        node_table_length(n.drop_last());
        assert(n.last().bytes().len() == 32);
    }
}

proof fn adjacency_table_length(a: Seq<AdjacencyEntry>)
    ensures
        adjacency_table(a).len() == 8 * a.len(),
    decreases a.len(),
{
    if a.len() > 0 {
        adjacency_table_length(a.drop_last());
        assert(a.last().bytes().len() == 8);
    }
}

proof fn edge_table_length(e: Seq<EdgeRecord>)
    ensures
        edge_table(e).len() == 40 * e.len(),
    decreases e.len(),
{
    if e.len() > 0 {
        edge_table_length(e.drop_last());
        assert(e.last().bytes().len() == 40);
    }
}

/// The bytes of the three tables add up.
pub proof fn table_lengths(n: Seq<NodeRecord>, a: Seq<AdjacencyEntry>, e: Seq<EdgeRecord>)
    ensures
        node_table(n).len() == 32 * n.len(),
        adjacency_table(a).len() == 8 * a.len(),
        edge_table(e).len() == 40 * e.len(),
{
    node_table_length(n);
    adjacency_table_length(a);
    edge_table_length(e);
}

/// The bytes of a header and three tables.
fn encode_tables(
    header: &InspectHeader,
    nodes: &Vec<NodeRecord>,
    adj: &Vec<AdjacencyEntry>,
    edges: &Vec<EdgeRecord>,
) -> (r: Vec<u8>)
    ensures
        r@ == header.bytes() + node_table(nodes@) + adjacency_table(adj@) + edge_table(edges@),
{
    let mut out: Vec<u8> = Vec::new();
    header.encode(&mut out);
    let ghost h = header.bytes();
    assert(out@ =~= h);
    let mut i: usize = 0;
    assert(nodes@.take(0) =~= Seq::<NodeRecord>::empty());
    while i < nodes.len()
        invariant
            i <= nodes@.len(),
            out@ == h + node_table(nodes@.take(i as int)),
        decreases nodes@.len() - i,
    {
        nodes[i].encode(&mut out);
        proof {
            assert(nodes@.take(i + 1).drop_last() =~= nodes@.take(i as int));
            assert(nodes@.take(i + 1).last() == nodes@[i as int]);
            assert(out@ =~= h + node_table(nodes@.take(i + 1)));
        }
        i = i + 1;
    }
    assert(nodes@.take(nodes@.len() as int) =~= nodes@);
    let ghost hn = out@;
    let mut j: usize = 0;
    assert(adj@.take(0) =~= Seq::<AdjacencyEntry>::empty());
    assert(out@ =~= hn + adjacency_table(adj@.take(0)));
    while j < adj.len()
        invariant
            j <= adj@.len(),
            out@ == hn + adjacency_table(adj@.take(j as int)),
        decreases adj@.len() - j,
    {
        adj[j].encode(&mut out);
        proof {
            assert(adj@.take(j + 1).drop_last() =~= adj@.take(j as int));
            assert(adj@.take(j + 1).last() == adj@[j as int]);
            assert(out@ =~= hn + adjacency_table(adj@.take(j + 1)));
        }
        j = j + 1;
    }
    assert(adj@.take(adj@.len() as int) =~= adj@);
    let ghost ha = out@;
    let mut k: usize = 0;
    assert(edges@.take(0) =~= Seq::<EdgeRecord>::empty());
    assert(out@ =~= ha + edge_table(edges@.take(0)));
    while k < edges.len()
        invariant
            k <= edges@.len(),
            out@ == ha + edge_table(edges@.take(k as int)),
        decreases edges@.len() - k,
    {
        edges[k].encode(&mut out);
        proof {
            assert(edges@.take(k + 1).drop_last() =~= edges@.take(k as int));
            assert(edges@.take(k + 1).last() == edges@[k as int]);
            assert(out@ =~= ha + edge_table(edges@.take(k + 1)));
        }
        k = k + 1;
    }
    assert(edges@.take(edges@.len() as int) =~= edges@);
    out
}

/// The counts of a snapshot fit their fields.
pub proof fn snapshot_counts(g: Graph)
    requires
        g.wf(),
    ensures
        g.all_live_ids().len() == g.live_nodes_total(),
        g.live_nodes_total() <= 921,
        g.snapshot_edges().len() == g.records_total(),
        g.records_total() <= 5017,
{
    let ids = g.all_live_ids();
    live_nodes_are_counted(g);
    every_edge_is_on_one_list(g);
    records_counted(g@, ids, ids.len() as int);
    crate::reap::few_nodes(g);
    crate::arena::count_live_bound(g.edges.books().gens);
    assert(g.edges.books().gens.len() == MAX_EDGES);
}

/// How long a snapshot is.
pub proof fn snapshot_length(g: Graph)
    requires
        g.all_live_ids().len() == g.live_nodes_total(),
        g.snapshot_edges().len() == g.records_total(),
    ensures
        g.snapshot().len() == crate::abi::snapshot_bytes(
            g.live_nodes_total() as int,
            g.records_total(),
        ),
{
    let (n, a, e) = (g.snapshot_nodes(), g.snapshot_adjacency(), g.snapshot_edges());
    table_lengths(n, a, e);
    let h = g.snapshot_header();
    crate::records::header_length(h);
    assert(n.len() == g.live_nodes_total());
    assert(a.len() == g.live_nodes_total());
    let hn = h.bytes() + node_table(n);
    assert(hn.len() == 64 + 32 * n.len());
    let ha = hn + adjacency_table(a);
    assert(ha.len() == 64 + 40 * n.len());
    assert(g.snapshot() == ha + edge_table(e));
}

/// Write a snapshot into `buf`, returning the bytes used, or nothing and zero
/// if it does not fit.
pub fn write_snapshot(g: &Graph, buf: &mut [u8]) -> (r: usize)
    requires
        g.wf(),
    ensures
        g.snapshot().len() == crate::abi::snapshot_bytes(
            g.live_nodes_total() as int,
            g.records_total(),
        ),
        if old(buf)@.len() < g.snapshot().len() {
            r == 0 && final(buf)@ == old(buf)@
        } else {
            r == g.snapshot().len() && final(buf)@ == crate::mem::overwritten(
                old(buf)@,
                0,
                g.snapshot(),
            )
        },
{
    proof {
        snapshot_counts(*g);
        snapshot_length(*g);
    }
    let total: usize = snapshot_size(g);
    if buf.len() < total {
        return 0;
    }
    let (nodes, adj, edges): (Vec<NodeRecord>, Vec<AdjacencyEntry>, Vec<EdgeRecord>) = gather(g);
    let (total_frames, free_frames, ticks): (u64, u64, u64) = read_register(g);
    let n: u32 = nodes.len() as u32;
    let header = InspectHeader {
        magic: INSPECT_MAGIC,
        version: INSPECT_VERSION,
        seq: g.seq(),
        node_count: n,
        edge_count: edges.len() as u32,
        node_offset: 64,
        adjacency_offset: 64 + 32 * n,
        edge_offset: 64 + 40 * n,
        total_frames,
        free_frames,
        ticks,
    };
    assert(header == g.snapshot_header());
    let out = encode_tables(&header, &nodes, &adj, &edges);
    crate::mem::write_bytes(buf, 0, out.as_slice());
    total
}

} // verus!

//! What a program reads out of a snapshot, byte by byte: every node and every
//! edge of the graph, with what they hold, and nothing else.

use vstd::prelude::*;

use crate::abi::EdgeRecord;
use crate::body::{Body, DeviceClass, ThreadState};
use crate::edge::{Dir, EdgeAttr, HoldsAttr, MapsAttr, NamedAttr, WaitRole, WaitingAttr};
use crate::graph::Graph;
use crate::id::{EdgeKind, NodeId, NodeKind};
use crate::view::{EdgeView, GraphView, NodeView};

verus! {

// ------------------------------------------------------------------ reading ---

/// The number a reader knows a kind of edge by.
pub open spec fn edge_number(kind: EdgeKind) -> int {
    match kind {
        EdgeKind::Owns => 0,
        EdgeKind::Holds => 1,
        EdgeKind::InSpace => 2,
        EdgeKind::Maps => 3,
        EdgeKind::Ready => 4,
        EdgeKind::Waiting => 5,
        EdgeKind::Named => 6,
    }
}

/// The number a reader knows a kind of node by.
pub open spec fn node_number(kind: NodeKind) -> int {
    match kind {
        NodeKind::Root => 0,
        NodeKind::Cpu => 1,
        NodeKind::Process => 2,
        NodeKind::Thread => 3,
        NodeKind::AddressSpace => 4,
        NodeKind::MemoryObject => 5,
        NodeKind::Endpoint => 6,
        NodeKind::Device => 7,
    }
}

/// The number a reader knows a thread's state by.
pub open spec fn state_number(s: ThreadState) -> int {
    match s {
        ThreadState::Inert => 0,
        ThreadState::Ready => 1,
        ThreadState::Running => 2,
        ThreadState::Blocked => 3,
        ThreadState::Dying => 4,
    }
}

/// The four-byte number that a reader finds at an offset, least byte first.
#[verifier::opaque]
pub open spec fn u32_at(b: Seq<u8>, at: int) -> u32 {
    crate::edge::le32(b, at)
}

/// The eight-byte number that a reader finds at an offset, least byte first.
#[verifier::opaque]
pub open spec fn u64_at(b: Seq<u8>, at: int) -> u64 {
    crate::edge::le64(b, at)
}

/// Where the reader finds the `j`-th edge.
pub open spec fn edge_at(b: Seq<u8>, j: int) -> int {
    u32_at(b, 32) + 40 * j
}

/// Where the reader finds the `i`-th node.
pub open spec fn node_at(b: Seq<u8>, i: int) -> int {
    u32_at(b, 24) + 32 * i
}

/// Where the reader finds what leads from the `i`-th node to its edges.
pub open spec fn lead_at(b: Seq<u8>, i: int) -> int {
    u32_at(b, 28) + 8 * i
}

/// The bytes at `at` say what the edge was linked with.
pub open spec fn shows_attr(b: Seq<u8>, at: int, x: EdgeView) -> bool {
    match x.kind {
        EdgeKind::Holds => forall|a: HoldsAttr|
            x.data == #[trigger] a.spec_bytes() ==> {
                &&& u64_at(b, at) == a.rights.0
                &&& u64_at(b, at + 8) == a.slot
            },
        EdgeKind::Maps => forall|a: MapsAttr|
            x.data == #[trigger] a.spec_bytes() ==> {
                &&& u64_at(b, at) == a.vaddr
                &&& u32_at(b, at + 8) == a.len_pages
                &&& u32_at(b, at + 12) == a.prot.0
            },
        EdgeKind::Waiting => forall|a: WaitingAttr|
            x.data == #[trigger] a.spec_bytes() ==> {
                &&& u64_at(b, at) == match a.role {
                    WaitRole::Send => 0int,
                    WaitRole::Recv => 1int,
                }
                &&& u64_at(b, at + 8) == a.badge
            },
        EdgeKind::Named => forall|a: NamedAttr|
            a.wf() && x.data == #[trigger] a.spec_bytes() ==> forall|k: int|
                0 <= k < 16 ==> #[trigger] b[at + k] == if k < a.name_bytes().len() {
                    a.name_bytes()[k]
                } else {
                    0
                },
        _ => u64_at(b, at) == 0 && u64_at(b, at + 8) == 0,
    }
}

/// The `j`-th edge in the bytes is this one.
pub open spec fn shows_edge(b: Seq<u8>, j: int, x: EdgeView) -> bool {
    let at = edge_at(b, j);
    &&& 0 <= j < u32_at(b, 20)
    &&& at + 40 <= b.len()
    &&& u64_at(b, at) == x.src.0
    &&& u64_at(b, at + 8) == x.dst.0
    &&& b[at + 16] == edge_number(x.kind)
    &&& b[at + 17] == 0
    &&& shows_attr(b, at + 24, x)
}

/// The `j`-th edge in the bytes says that the cpu runs the thread.
pub open spec fn shows_running(b: Seq<u8>, j: int, cpu: NodeId, t: NodeId) -> bool {
    let at = edge_at(b, j);
    &&& 0 <= j < u32_at(b, 20)
    &&& at + 40 <= b.len()
    &&& u64_at(b, at) == cpu.0
    &&& u64_at(b, at + 8) == t.0
    &&& b[at + 16] == 7
    &&& b[at + 17] == 1
}

/// The slots of a handle table that are in use.
pub open spec fn slots_used(h: Seq<u32>, n: int) -> Set<int> {
    Set::new(|i: int| 0 <= i < n && h[i] != 0)
}

/// The sixteen bytes at `at` say what the node holds.
pub open spec fn shows_body(b: Seq<u8>, at: int, body: Body) -> bool {
    match body {
        Body::Root(n) => u64_at(b, at) == n.ticks && u64_at(b, at + 8)
            == n.free_frames,
        Body::Cpu(n) => u64_at(b, at) == n.current.0 && u64_at(b, at + 8)
            == 0,
        Body::Process(n) => u64_at(b, at) == slots_used(
            n.handles@,
            n.handles@.len() as int,
        ).len() && u64_at(b, at + 8) == if n.exit_code >= 0 {
            n.exit_code as int
        } else {
            ((n.exit_code as i64) as u64) as int
        },
        Body::Thread(n) => u64_at(b, at) == state_number(n.state) && u64_at(
            b,
            at + 8,
        ) == n.cr3,
        Body::AddressSpace(n) => u64_at(b, at) == n.pml4_phys && u64_at(
            b,
            at + 8,
        ) == n.mapping_count,
        Body::MemoryObject(n) => u64_at(b, at) == n.phys_base && u32_at(
            b,
            at + 8,
        ) == n.pages && u32_at(b, at + 12) == n.flags.0,
        Body::Endpoint(_) => u64_at(b, at) == 0 && u64_at(b, at + 8) == 0,
        Body::Device(n) => u64_at(b, at) == n.io_base && u64_at(b, at + 8)
            == match n.class {
            DeviceClass::Unclassified => 0int,
            DeviceClass::SerialConsole => 1int,
        },
    }
}

/// The `i`-th node in the bytes is this one.
pub open spec fn shows_node(b: Seq<u8>, i: int, id: NodeId, n: NodeView) -> bool {
    let at = node_at(b, i);
    &&& 0 <= i < u32_at(b, 16)
    &&& at + 32 <= b.len()
    &&& u64_at(b, at) == id.0
    &&& b[at + 8] == node_number(n.body.kind())
    &&& b[at + 9] == n.flags
    &&& shows_body(b, at + 16, n.body)
}

// ------------------------------------------------------------------ numbers ---

/// The bytes of a four-byte number are told apart by it.
proof fn same_half_same_bytes(b: Seq<u8>, i: int, c: Seq<u8>, j: int)
    requires
        crate::edge::le32(b, i) == crate::edge::le32(c, j),
    ensures
        b[i] == c[j],
        b[i + 1] == c[j + 1],
        b[i + 2] == c[j + 2],
        b[i + 3] == c[j + 3],
{
    let (p, q, r, s) = (b[i] as int, b[i + 1] as int, b[i + 2] as int, b[i + 3] as int);
    let (t, u, x, y) = (c[j] as int, c[j + 1] as int, c[j + 2] as int, c[j + 3] as int);
    assert(p + q * 256 + r * 0x1_0000 + s * 0x100_0000 == t + u * 256 + x * 0x1_0000 + y
        * 0x100_0000);
}

/// The halves of an eight-byte number are told apart by it.
proof fn same_number_same_halves(b: Seq<u8>, i: int, c: Seq<u8>, j: int)
    requires
        crate::edge::le64(b, i) == crate::edge::le64(c, j),
    ensures
        crate::edge::le32(b, i) == crate::edge::le32(c, j),
        crate::edge::le32(b, i + 4) == crate::edge::le32(c, j + 4),
{
    parts_of(crate::edge::le32(b, i), crate::edge::le32(b, i + 4));
    parts_of(crate::edge::le32(c, j), crate::edge::le32(c, j + 4));
}

proof fn parts_of(lo: u32, hi: u32)
    ensures
        ({
            let w = (lo + hi * 0x1_0000_0000) as u64;
            w % 0x1_0000_0000 == lo && w / 0x1_0000_0000 == hi
        }),
{
}

/// Bytes are told apart by the number they make.
proof fn same_number_same_bytes(b: Seq<u8>, i: int, c: Seq<u8>, j: int)
    requires
        u64_at(b, i) == crate::edge::le64(c, j),
    ensures
        forall|k: int| 0 <= k < 8 ==> #[trigger] b[i + k] == c[j + k],
{
    reveal(u64_at);
    same_number_same_halves(b, i, c, j);
    same_half_same_bytes(b, i, c, j);
    same_half_same_bytes(b, i + 4, c, j + 4);
    assert forall|k: int| 0 <= k < 8 implies #[trigger] b[i + k] == c[j + k] by {
        if k == 0 || k == 1 || k == 2 || k == 3 {
        } else {
            assert(b[i + 4 + (k - 4)] == c[j + 4 + (k - 4)]);
        }
    }
}

/// An eight-byte number is read by halves.
proof fn halves_read(b: Seq<u8>, at: int, lo: u32, hi: u32)
    requires
        u64_at(b, at) == lo + hi * 0x1_0000_0000,
    ensures
        u32_at(b, at) == lo,
        u32_at(b, at + 4) == hi,
{
    reveal(u64_at);
    reveal(u32_at);
    parts_of(crate::edge::le32(b, at), crate::edge::le32(b, at + 4));
    parts_of(lo, hi);
}

/// The numbers of an edge record stand at an offset.
spec fn is_record(b: Seq<u8>, at: int, r: EdgeRecord) -> bool {
    &&& u64_at(b, at) == r.src
    &&& u64_at(b, at + 8) == r.dst
    &&& b[at + 16] == r.kind
    &&& b[at + 17] == r.flags
    &&& u64_at(b, at + 24) == r.a
    &&& u64_at(b, at + 24 + 8) == r.b
}

/// An edge record, number by number.
proof fn edge_read(b: Seq<u8>, at: int, r: EdgeRecord)
    requires
        crate::records::edge_in(b, at) == r,
    ensures
        is_record(b, at, r),
{
    reveal(u64_at);
    assert(at + 24 + 8 == at + 32);
}

/// A node record, number by number.
proof fn node_read(b: Seq<u8>, at: int)
    ensures
        ({
            let r = crate::records::node_in(b, at);
            &&& u64_at(b, at) == r.id
            &&& b[at + 8] == r.kind
            &&& b[at + 9] == r.flags
            &&& u64_at(b, at + 16) == r.a
            &&& u64_at(b, at + 16 + 8) == r.b
        }),
{
    reveal(u64_at);
    assert(at + 16 + 8 == at + 24);
}

/// An adjacency entry, number by number.
proof fn lead_read(b: Seq<u8>, at: int)
    ensures
        ({
            let r = crate::records::adjacency_in(b, at);
            &&& u32_at(b, at) == r.first
            &&& u32_at(b, at + 4) == r.count
        }),
{
    reveal(u32_at);
}

/// The header, number by number.
proof fn header_read(b: Seq<u8>)
    ensures
        ({
            let r = crate::records::header_in(b);
            &&& u32_at(b, 0) == r.magic
            &&& u32_at(b, 4) == r.version
            &&& u64_at(b, 8) == r.seq
            &&& u32_at(b, 16) == r.node_count
            &&& u32_at(b, 20) == r.edge_count
            &&& u32_at(b, 24) == r.node_offset
            &&& u32_at(b, 28) == r.adjacency_offset
            &&& u32_at(b, 32) == r.edge_offset
            &&& u64_at(b, 40) == r.total_frames
            &&& u64_at(b, 48) == r.free_frames
            &&& u64_at(b, 56) == r.ticks
        }),
{
    reveal(u32_at);
    reveal(u64_at);
}

/// The slots in use are counted.
proof fn slots_counted(h: Seq<u32>, n: int)
    requires
        0 <= n,
    ensures
        slots_used(h, n).finite(),
        slots_used(h, n).len() == crate::inspect::handles_used(h, n),
    decreases n,
{
    if n == 0 {
        assert(slots_used(h, 0) =~= Set::empty());
    } else {
        slots_counted(h, n - 1);
        if h[n - 1] != 0 {
            assert(slots_used(h, n) =~= slots_used(h, n - 1).insert(n - 1));
        } else {
            assert(slots_used(h, n) =~= slots_used(h, n - 1));
        }
    }
}

// -------------------------------------------------------------------- edges ---

/// What the header says of where things are.
proof fn layout(g: Graph, b: Seq<u8>)
    requires
        g.wf(),
        crate::records::lies_at(b, 0, g.snapshot()),
    ensures
        u32_at(b, 16) == g.all_live_ids().len(),
        u32_at(b, 20) == g.snapshot_edges().len(),
        u32_at(b, 24) == g.snapshot_header().node_offset,
        u32_at(b, 28) == g.snapshot_header().adjacency_offset,
        u32_at(b, 32) == g.snapshot_header().edge_offset,
        u32_at(b, 24) == 64,
        u32_at(b, 28) == 64 + 32 * g.all_live_ids().len(),
        u32_at(b, 32) == 64 + 40 * g.all_live_ids().len(),
        64 + 40 * g.all_live_ids().len() + 40 * g.snapshot_edges().len() <= b.len(),
{
    crate::inspect::snapshot_counts(g);
    crate::laws_inspect::snapshot_reads_back(g, b);
    crate::inspect::table_lengths(
        g.snapshot_nodes(),
        g.snapshot_adjacency(),
        g.snapshot_edges(),
    );
    crate::records::header_length(g.snapshot_header());
    header_read(b);
    assert(crate::records::header_in(b) == g.snapshot_header());
}

/// What a record says of an edge's attributes is what they are.
proof fn attr_is_shown(v: GraphView, e: u32, b: Seq<u8>, at: int)
    requires
        u64_at(b, at) == v.edge_record(e).a,
        u64_at(b, at + 8) == v.edge_record(e).b,
    ensures
        shows_attr(b, at, v.edges[e]),
{
    let x = v.edges[e];
    let w = crate::inspect::edge_words(x.kind, x.data);
    match x.kind {
        EdgeKind::Holds => {
            assert forall|a: HoldsAttr| x.data == #[trigger] a.spec_bytes() implies {
                &&& u64_at(b, at) == a.rights.0
                &&& u64_at(b, at + 8) == a.slot
            } by {
                a.round_trip();
            }
        },
        EdgeKind::Maps => {
            assert forall|a: MapsAttr| x.data == #[trigger] a.spec_bytes() implies {
                &&& u64_at(b, at) == a.vaddr
                &&& u32_at(b, at + 8) == a.len_pages
                &&& u32_at(b, at + 12) == a.prot.0
            } by {
                a.round_trip();
                halves_read(b, at + 8, a.len_pages, a.prot.0 as u32);
            }
        },
        EdgeKind::Waiting => {
            assert forall|a: WaitingAttr| x.data == #[trigger] a.spec_bytes() implies {
                &&& u64_at(b, at) == match a.role {
                    WaitRole::Send => 0int,
                    WaitRole::Recv => 1int,
                }
                &&& u64_at(b, at + 8) == a.badge
            } by {
                a.round_trip();
            }
        },
        EdgeKind::Named => {
            assert forall|a: NamedAttr|
                a.wf() && x.data == #[trigger] a.spec_bytes() implies forall|k: int|
                0 <= k < 16 ==> #[trigger] b[at + k] == if k < a.name_bytes().len() {
                    a.name_bytes()[k]
                } else {
                    0
                } by {
                a.round_trip();
                let p = crate::inspect::name_prefix(a);
                same_number_same_bytes(b, at, p, 0);
                same_number_same_bytes(b, at + 8, p, 8);
                assert forall|k: int| 0 <= k < 16 implies #[trigger] b[at + k] == if k
                    < a.name_bytes().len() {
                    a.name_bytes()[k]
                } else {
                    0
                } by {
                    if k < 8 {
                        assert(b[at + k] == p[0 + k]);
                    } else {
                        assert(b[at + 8 + (k - 8)] == p[8 + (k - 8)]);
                    }
                }
            }
        },
        _ => {},
    }
}

/// Where the record of an edge stands among those of its node.
proof fn edge_among_records(g: Graph, e: u32) -> (r: (int, int))
    requires
        g.wf(),
        g@.edges.contains_key(e),
    ensures
        0 <= r.0 < g.all_live_ids().len(),
        g.all_live_ids()[r.0] == g@.edges[e].src,
        0 <= r.1 < g@.out_of(g@.edges[e].src, 7).len(),
        g@.out_of(g@.edges[e].src, 7)[r.1] == e,
{
    let v = g@;
    let src = v.edges[e].src;
    let ids = g.all_live_ids();
    assert(v.edge_ok(e));
    crate::walk::every_live_node_is_listed(g);
    assert(g.spec_live(src));
    assert(ids.contains(src));
    crate::inspect::out_of_lists(v, src, 7);
    assert(v.edges[e].kind.spec_code() < 7);
    assert(v.out_of(src, 7).contains(e));
    (ids.index_of(src), v.out_of(src, 7).index_of(e))
}

/// The record at a place among a node's is the one read there.
proof fn record_is_read(g: Graph, b: Seq<u8>, i: int, p: int) -> (j: int)
    requires
        g.wf(),
        crate::records::lies_at(b, 0, g.snapshot()),
        0 <= i < g.all_live_ids().len(),
        0 <= p < g@.node_edges(g.all_live_ids()[i]).len(),
    ensures
        j == u32_at(b, lead_at(b, i)) + p,
        u32_at(b, lead_at(b, i) + 4) == g@.node_edges(g.all_live_ids()[i]).len(),
        0 <= j < u32_at(b, 20),
        edge_at(b, j) + 40 <= b.len(),
        is_record(b, edge_at(b, j), g@.node_edges(g.all_live_ids()[i])[p]),
{
    let ids = g.all_live_ids();
    let v = g@;
    layout(g, b);
    crate::inspect::snapshot_counts(g);
    crate::laws_inspect::snapshot_reads_back(g, b);
    crate::laws_inspect::stretch_of(v, ids, i, ids.len() as int);
    let first = v.edges_below(ids, i).len() as int;
    let own = v.node_edges(ids[i]);
    let all = g.snapshot_edges();
    assert(g.snapshot_adjacency()[i].first == first);
    lead_read(b, lead_at(b, i));
    assert(crate::records::adjacency_in(b, lead_at(b, i)) == g.snapshot_adjacency()[i]);
    assert(all.subrange(first, first + own.len())[p] == all[first + p]);
    assert(crate::records::edge_in(b, edge_at(b, first + p)) == all[first + p]);
    edge_read(b, edge_at(b, first + p), all[first + p]);
    first + p
}

/// The records that leave the `i`-th node in the bytes.
pub open spec fn leads_to(b: Seq<u8>, i: int, j: int) -> bool {
    let first = u32_at(b, lead_at(b, i));
    first <= j < first + u32_at(b, lead_at(b, i) + 4)
}

/// Every edge of the graph is in its snapshot, under the node that it leaves,
/// with what it was linked with: a capability's rights and slot, where a
/// mapping is, how long it is and what it allows, which side of a message a
/// thread waits on, and what something is named.
pub proof fn every_edge_is_shown(g: Graph, b: Seq<u8>, e: u32)
    requires
        g.wf(),
        crate::records::lies_at(b, 0, g.snapshot()),
        g@.edges.contains_key(e),
    ensures
        exists|i: int, j: int|
            #![trigger shows_edge(b, j, g@.edges[e]), leads_to(b, i, j)]
            {
                &&& 0 <= i < u32_at(b, 16)
                &&& u64_at(b, node_at(b, i)) == g@.edges[e].src.0
                &&& leads_to(b, i, j)
                &&& shows_edge(b, j, g@.edges[e])
            },
{
    let v = g@;
    let (i, p) = edge_among_records(g, e);
    let own = v.node_edges(g.all_live_ids()[i]);
    let s = v.out_of(v.edges[e].src, 7);
    assert(own[p] == v.records_of(s)[p]);
    assert(own[p] == v.edge_record(e));
    let j = record_is_read(g, b, i, p);
    layout(g, b);
    attr_is_shown(v, e, b, edge_at(b, j) + 24);
    assert(edge_number(v.edges[e].kind) == v.edges[e].kind.spec_code());
    assert(shows_edge(b, j, v.edges[e]));
    assert(leads_to(b, i, j));
    crate::laws_inspect::snapshot_reads_back(g, b);
    assert(g.snapshot_nodes()[i].id == v.edges[e].src.0);
    node_read(b, node_at(b, i));
    assert(crate::records::node_in(b, node_at(b, i)) == g.snapshot_nodes()[i]);
}

/// Every edge in a snapshot is one of the graph, or says which thread a cpu is
/// running.
pub proof fn every_shown_edge_is_there(g: Graph, b: Seq<u8>, j: int)
    requires
        g.wf(),
        crate::records::lies_at(b, 0, g.snapshot()),
        0 <= j < u32_at(b, 20),
    ensures
        (exists|e: u32| g@.edges.contains_key(e) && #[trigger] shows_edge(b, j, g@.edges[e])) || (
        exists|c: NodeId|
            g@.live(c) && c.kind() == Some(NodeKind::Cpu) && !g@.cpu(c).current.is_null()
                && #[trigger] shows_running(b, j, c, g@.cpu(c).current)),
{
    let v = g@;
    let ids = g.all_live_ids();
    layout(g, b);
    let (i, p) = record_of(v, ids, ids.len() as int, j);
    any_record_is_read(g, b, j);
    listed_is_live(g, i);
    shown_record(v, b, j, ids[i], p);
}

/// A record that is read is of an edge, or of what a cpu runs.
proof fn shown_record(v: GraphView, b: Seq<u8>, j: int, id: NodeId, p: int)
    requires
        v.wf(),
        v.live(id),
        0 <= j < u32_at(b, 20),
        edge_at(b, j) + 40 <= b.len(),
        0 <= p < v.node_edges(id).len(),
        is_record(b, edge_at(b, j), v.node_edges(id)[p]),
    ensures
        (exists|e: u32| v.edges.contains_key(e) && #[trigger] shows_edge(b, j, v.edges[e])) || (
        exists|c: NodeId|
            v.live(c) && c.kind() == Some(NodeKind::Cpu) && !v.cpu(c).current.is_null()
                && #[trigger] shows_running(b, j, c, v.cpu(c).current)),
{
    let s = v.out_of(id, 7);
    among_records(v, id, p);
    if p < s.len() {
        let e = s[p];
        crate::inspect::out_of_lists(v, id, 7);
        assert(s.contains(e));
        attr_is_shown(v, e, b, edge_at(b, j) + 24);
        assert(edge_number(v.edges[e].kind) == v.edges[e].kind.spec_code());
        assert(shows_edge(b, j, v.edges[e]));
    } else {
        running_comes_last(v, id);
        running_is_a_cpu(v, id);
        assert(shows_running(b, j, id, v.cpu(id).current));
    }
}

/// The record at a place among all is the one read there.
proof fn any_record_is_read(g: Graph, b: Seq<u8>, j: int)
    requires
        g.wf(),
        crate::records::lies_at(b, 0, g.snapshot()),
        0 <= j < g.snapshot_edges().len(),
    ensures
        is_record(b, edge_at(b, j), g.snapshot_edges()[j]),
{
    layout(g, b);
    crate::laws_inspect::snapshot_reads_back(g, b);
    assert(crate::records::edge_in(b, edge_at(b, j)) == g.snapshot_edges()[j]);
    edge_read(b, edge_at(b, j), g.snapshot_edges()[j]);
}

/// Which node's record stands at a place among all of them.
proof fn record_of(v: GraphView, ids: Seq<NodeId>, n: int, j: int) -> (r: (int, int))
    requires
        0 <= n <= ids.len(),
        0 <= j < v.edges_below(ids, n).len(),
    ensures
        0 <= r.0 < n,
        0 <= r.1 < v.node_edges(ids[r.0]).len(),
        v.edges_below(ids, n)[j] == v.node_edges(ids[r.0])[r.1],
    decreases n,
{
    let less = v.edges_below(ids, n - 1);
    if j < less.len() {
        record_of(v, ids, n - 1, j)
    } else {
        (n - 1, j - less.len())
    }
}

/// What a cpu runs is the last of its records.
proof fn running_comes_last(v: GraphView, c: NodeId)
    requires
        v.is_running(c),
    ensures
        ({
            let own = v.node_edges(c);
            &&& own.len() == v.out_of(c, 7).len() + 1
            &&& own.last().src == c.0
            &&& own.last().dst == v.cpu(c).current.0
            &&& own.last().kind == 7
            &&& own.last().flags == 1
        }),
{
    let own = v.node_edges(c);
    assert(v.running_record(c).len() == 1);
    assert(own.last() == v.running_record(c)[0]);
}

/// The records of a node are of its edges, and of what it runs.
proof fn among_records(v: GraphView, id: NodeId, p: int)
    requires
        0 <= p < v.node_edges(id).len(),
    ensures
        p < v.out_of(id, 7).len() ==> v.node_edges(id)[p] == v.edge_record(v.out_of(id, 7)[p]),
        p >= v.out_of(id, 7).len() ==> v.is_running(id) && p == v.node_edges(id).len() - 1,
{
    let s = v.out_of(id, 7);
    if p < s.len() {
        assert(v.node_edges(id)[p] == v.records_of(s)[p]);
    }
}

/// What runs something is a cpu with a thread on it.
proof fn running_is_a_cpu(v: GraphView, c: NodeId)
    requires
        v.wf(),
        v.live(c),
    ensures
        v.is_running(c) <==> c.kind() == Some(NodeKind::Cpu) && !v.cpu(c).current.is_null(),
{
    assert(v.nodes.contains_key(c));
    assert(v.node_ok(c));
}

/// The last record of a cpu that runs something is read as what it runs.
proof fn running_is_read(g: Graph, b: Seq<u8>, i: int) -> (j: int)
    requires
        g.wf(),
        crate::records::lies_at(b, 0, g.snapshot()),
        0 <= i < g.all_live_ids().len(),
        g@.is_running(g.all_live_ids()[i]),
    ensures
        shows_running(b, j, g.all_live_ids()[i], g@.cpu(g.all_live_ids()[i]).current),
{
    let c = g.all_live_ids()[i];
    running_comes_last(g@, c);
    record_is_read(g, b, i, g@.node_edges(c).len() - 1)
}

/// Where a live node stands in the listing.
proof fn place_of(g: Graph, id: NodeId) -> (i: int)
    requires
        g.wf(),
        g@.live(id),
    ensures
        0 <= i < g.all_live_ids().len(),
        g.all_live_ids()[i] == id,
{
    let ids = g.all_live_ids();
    crate::walk::every_live_node_is_listed(g);
    assert(g.spec_live(id));
    assert(ids.contains(id));
    ids.index_of(id)
}

/// What is listed is live.
proof fn listed_is_live(g: Graph, i: int)
    requires
        g.wf(),
        0 <= i < g.all_live_ids().len(),
    ensures
        g@.live(g.all_live_ids()[i]),
{
    let ids = g.all_live_ids();
    crate::walk::every_live_node_is_listed(g);
    assert(ids.contains(ids[i]));
    assert(g.spec_live(ids[i]));
}

/// A cpu that runs a thread is shown to.
pub proof fn every_running_thread_is_shown(g: Graph, b: Seq<u8>, c: NodeId)
    requires
        g.wf(),
        crate::records::lies_at(b, 0, g.snapshot()),
        g@.live(c),
        c.kind() == Some(NodeKind::Cpu),
        !g@.cpu(c).current.is_null(),
    ensures
        exists|j: int| #[trigger] shows_running(b, j, c, g@.cpu(c).current),
{
    running_is_a_cpu(g@, c);
    let i = place_of(g, c);
    let j = running_is_read(g, b, i);
    assert(shows_running(b, j, c, g@.cpu(c).current));
}

/// Where the edges of one kind stand among those that leave a node.
proof fn kind_among(v: GraphView, id: NodeId, kind: EdgeKind, k: int, p: int)
    requires
        edge_number(kind) < k <= 7,
        0 <= p < v.list(id, Dir::Out, kind).len(),
    ensures
        ({
            let q = v.out_of(id, edge_number(kind)).len() + p;
            q < v.out_of(id, k).len() && v.out_of(id, k)[q] == v.list(id, Dir::Out, kind)[p]
        }),
    decreases k,
{
    assert(edge_number(kind) == kind.spec_code());
    if edge_number(kind) < k - 1 {
        kind_among(v, id, kind, k - 1, p);
    } else {
        assert(EdgeKind::spec_from_u8((k - 1) as u8) == Some(kind));
    }
}

/// The order of a list is in the snapshot: of two threads in a queue the one
/// before is shown before.
pub proof fn lists_are_shown_in_order(
    g: Graph,
    b: Seq<u8>,
    id: NodeId,
    kind: EdgeKind,
    p: int,
    q: int,
)
    requires
        g.wf(),
        crate::records::lies_at(b, 0, g.snapshot()),
        g@.live(id),
        0 <= p < q < g@.list(id, Dir::Out, kind).len(),
    ensures
        ({
            let s = g@.list(id, Dir::Out, kind);
            exists|i: int, j: int|
                i < j && #[trigger] shows_edge(b, i, g@.edges[s[p]]) && #[trigger] shows_edge(
                    b,
                    j,
                    g@.edges[s[q]],
                )
        }),
{
    let v = g@;
    let ids = g.all_live_ids();
    let s = v.list(id, Dir::Out, kind);
    crate::walk::every_live_node_is_listed(g);
    assert(g.spec_live(id));
    assert(ids.contains(id));
    let n = ids.index_of(id);
    kind_among(v, id, kind, 7, p);
    kind_among(v, id, kind, 7, q);
    let first = v.out_of(id, edge_number(kind)).len();
    let own = v.node_edges(id);
    let i = record_is_read(g, b, n, first + p);
    let j = record_is_read(g, b, n, first + q);
    layout(g, b);
    assert(own[first + p] == v.edge_record(s[p]));
    assert(own[first + q] == v.edge_record(s[q]));
    attr_is_shown(v, s[p], b, edge_at(b, i) + 24);
    attr_is_shown(v, s[q], b, edge_at(b, j) + 24);
    assert(edge_number(v.edges[s[p]].kind) == v.edges[s[p]].kind.spec_code());
    assert(edge_number(v.edges[s[q]].kind) == v.edges[s[q]].kind.spec_code());
    assert(shows_edge(b, i, v.edges[s[p]]));
    assert(shows_edge(b, j, v.edges[s[q]]));
}

/// Two graphs with one snapshot have the same mappings: none is at another
/// address, of another length, or with another protection.
pub proof fn snapshots_tell_mappings_apart(g: Graph, h: Graph, b: Seq<u8>, e: u32, a: MapsAttr)
    requires
        g.wf(),
        h.wf(),
        crate::records::lies_at(b, 0, g.snapshot()),
        crate::records::lies_at(b, 0, h.snapshot()),
        g@.edges.contains_key(e),
        g@.edges[e].kind == EdgeKind::Maps,
        g@.edges[e].data == a.spec_bytes(),
    ensures
        exists|f: u32| #[trigger]
            h@.edges.contains_key(f) && h@.edges[f].kind == EdgeKind::Maps && h@.edges[f].src.0
                == g@.edges[e].src.0 && h@.edges[f].dst.0 == g@.edges[e].dst.0 && forall|c: MapsAttr|
                h@.edges[f].data == #[trigger] c.spec_bytes() ==> c.vaddr == a.vaddr && c.len_pages
                    == a.len_pages && c.prot == a.prot,
{
    every_edge_is_shown(g, b, e);
    let (i, j) = choose|i: int, j: int|
        #![trigger shows_edge(b, j, g@.edges[e]), leads_to(b, i, j)]
        leads_to(b, i, j) && shows_edge(b, j, g@.edges[e]);
    every_shown_edge_is_there(h, b, j);
    assert(b[edge_at(b, j) + 17] == 0);
    let f = choose|f: u32| h@.edges.contains_key(f) && #[trigger] shows_edge(b, j, h@.edges[f]);
    shown_alike(b, j, g@.edges[e], h@.edges[f], a);
}

/// Two edges that one record shows are alike.
proof fn shown_alike(b: Seq<u8>, j: int, x: EdgeView, y: EdgeView, a: MapsAttr)
    requires
        shows_edge(b, j, x),
        shows_edge(b, j, y),
        x.kind == EdgeKind::Maps,
        x.data == a.spec_bytes(),
    ensures
        y.kind == EdgeKind::Maps,
        y.src.0 == x.src.0,
        y.dst.0 == x.dst.0,
        forall|c: MapsAttr|
            y.data == #[trigger] c.spec_bytes() ==> c.vaddr == a.vaddr && c.len_pages
                == a.len_pages && c.prot == a.prot,
{
    assert(edge_number(y.kind) == 3);
    assert(y.kind == EdgeKind::Maps);
    assert(shows_attr(b, edge_at(b, j) + 24, x));
    assert(shows_attr(b, edge_at(b, j) + 24, y));
    assert forall|c: MapsAttr| y.data == #[trigger] c.spec_bytes() implies c.vaddr == a.vaddr
        && c.len_pages == a.len_pages && c.prot == a.prot by {
        assert(c.prot.0 == a.prot.0);
    }
}

// -------------------------------------------------------------------- nodes ---

/// Every node of the graph is in its snapshot, with what it holds.
pub proof fn every_node_is_shown(g: Graph, b: Seq<u8>, id: NodeId)
    requires
        g.wf(),
        crate::records::lies_at(b, 0, g.snapshot()),
        g@.live(id),
    ensures
        exists|i: int| #[trigger] shows_node(b, i, id, g@.nodes[id]),
{
    let ids = g.all_live_ids();
    crate::walk::every_live_node_is_listed(g);
    assert(g.spec_live(id));
    assert(ids.contains(id));
    shown_node(g, b, ids.index_of(id));
}

/// Every node in a snapshot is one of the graph.
pub proof fn every_shown_node_is_there(g: Graph, b: Seq<u8>, i: int)
    requires
        g.wf(),
        crate::records::lies_at(b, 0, g.snapshot()),
        0 <= i < u32_at(b, 16),
    ensures
        exists|id: NodeId| g@.live(id) && #[trigger] shows_node(b, i, id, g@.nodes[id]),
{
    let ids = g.all_live_ids();
    layout(g, b);
    crate::walk::every_live_node_is_listed(g);
    assert(ids.contains(ids[i]));
    assert(g.spec_live(ids[i]));
    shown_node(g, b, i);
}

/// No node is shown twice.
pub proof fn nodes_are_shown_once(g: Graph, b: Seq<u8>, i: int, j: int)
    requires
        g.wf(),
        crate::records::lies_at(b, 0, g.snapshot()),
        0 <= i < j < u32_at(b, 16),
    ensures
        u64_at(b, node_at(b, i)) != u64_at(b, node_at(b, j)),
{
    let ids = g.all_live_ids();
    layout(g, b);
    crate::walk::every_live_node_is_listed(g);
    assert(ids.contains(ids[i]) && ids.contains(ids[j]));
    assert(g.spec_live(ids[i]) && g.spec_live(ids[j]));
    shown_node(g, b, i);
    shown_node(g, b, j);
    assert(ids[i] != ids[j]);
}

proof fn shown_node(g: Graph, b: Seq<u8>, i: int)
    requires
        g.wf(),
        crate::records::lies_at(b, 0, g.snapshot()),
        0 <= i < g.all_live_ids().len(),
        g@.live(g.all_live_ids()[i]),
    ensures
        shows_node(b, i, g.all_live_ids()[i], g@.nodes[g.all_live_ids()[i]]),
{
    let v = g@;
    let id = g.all_live_ids()[i];
    let n = v.nodes[id];
    let at = node_at(b, i);
    layout(g, b);
    crate::laws_inspect::snapshot_reads_back(g, b);
    assert(g.snapshot_nodes()[i] == v.node_record(id));
    node_read(b, at);
    assert(crate::records::node_in(b, at) == v.node_record(id));
    assert(v.nodes.contains_key(id));
    assert(v.node_ok(id));
    assert(node_number(n.body.kind()) == n.body.kind().spec_code());
    body_is_shown(n.body, b, at + 16);
}

/// What a record says of a body is what it holds.
proof fn body_is_shown(body: Body, b: Seq<u8>, at: int)
    requires
        u64_at(b, at) == crate::inspect::body_words(body).0,
        u64_at(b, at + 8) == crate::inspect::body_words(body).1,
    ensures
        shows_body(b, at, body),
{
    match body {
        Body::Process(p) => {
            slots_counted(p.handles@, p.handles@.len() as int);
            used_at_most(p.handles@, p.handles@.len() as int);
        },
        Body::Thread(t) => {
            assert(state_number(t.state) == t.state.spec_code());
        },
        Body::MemoryObject(m) => {
            halves_read(b, at + 8, m.pages, m.flags.0);
        },
        _ => {},
    }
}

proof fn used_at_most(h: Seq<u32>, n: int)
    requires
        0 <= n,
    ensures
        0 <= crate::inspect::handles_used(h, n) <= n,
    decreases n,
{
    if n > 0 {
        used_at_most(h, n - 1);
    }
}

/// The header says what the bytes are, how far the graph has come, how many
/// nodes there are and where they start, and what the root records of memory
/// and time.
pub proof fn header_is_shown(g: Graph, b: Seq<u8>)
    requires
        g.wf(),
        crate::records::lies_at(b, 0, g.snapshot()),
    ensures
        u32_at(b, 0) == 0x4272_616D,
        u32_at(b, 4) == 1,
        u64_at(b, 8) == g.seq,
        u32_at(b, 24) == 64,
        u32_at(b, 28) == 64 + 32 * u32_at(b, 16),
        u32_at(b, 32) == 64 + 40 * u32_at(b, 16),
        g@.live(g@.root_id) && g@.nodes[g@.root_id].body is Root ==> {
            let r = g@.nodes[g@.root_id].body->Root_0;
            &&& u64_at(b, 40) == r.total_frames
            &&& u64_at(b, 48) == r.free_frames
            &&& u64_at(b, 56) == r.ticks
        },
        !g@.live(g@.root_id) ==> u64_at(b, 40) == 0 && u64_at(b, 48) == 0
            && u64_at(b, 56) == 0,
{
    layout(g, b);
    crate::laws_inspect::snapshot_reads_back(g, b);
    header_read(b);
    assert(crate::records::header_in(b) == g.snapshot_header());
    if g@.live(g@.root_id) {
        assert(g@.nodes.contains_key(g@.root_id));
        assert(g@.node_ok(g@.root_id));
    }
}

} // verus!

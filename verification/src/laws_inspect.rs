//! A snapshot says everything: read back, it is the graph it was taken of.

use vstd::prelude::*;

use crate::abi::{AdjacencyEntry, EdgeRecord, NodeRecord};
use crate::graph::Graph;
use crate::id::NodeId;
use crate::view::GraphView;

verus! {

/// A part of a part is a part.
proof fn lies_within(b: Seq<u8>, at: int, s: Seq<u8>, k: int, t: Seq<u8>)
    requires
        crate::records::lies_at(b, at, s),
        crate::records::lies_at(s, k, t),
    ensures
        crate::records::lies_at(b, at + k, t),
{
    let w = b.subrange(at, at + s.len());
    assert(b.subrange(at + k, at + k + t.len()) =~= w.subrange(k, k + t.len()));
}

/// What lies in the first of two pieces lies in both together; and so does
/// the second.
proof fn lies_in_sum(u: Seq<u8>, x: Seq<u8>, k: int, t: Seq<u8>)
    requires
        crate::records::lies_at(u, k, t),
    ensures
        crate::records::lies_at(u + x, k, t),
{
    assert((u + x).subrange(k, k + t.len()) =~= u.subrange(k, k + t.len()));
}

proof fn second_lies(u: Seq<u8>, x: Seq<u8>)
    ensures
        crate::records::lies_at(u + x, u.len() as int, x),
{
    assert((u + x).subrange(u.len() as int, (u.len() + x.len()) as int) =~= x);
}

/// Each record of a table stands at its place.
proof fn node_in_table(s: Seq<NodeRecord>, i: int)
    requires
        0 <= i < s.len(),
    ensures
        crate::inspect::node_table(s).len() == 32 * s.len(),
        crate::records::lies_at(crate::inspect::node_table(s), 32 * i, s[i].bytes()),
    decreases s.len(),
{
    crate::inspect::table_lengths(s, Seq::empty(), Seq::empty());
    let d = s.drop_last();
    crate::inspect::table_lengths(d, Seq::empty(), Seq::empty());
    let u = crate::inspect::node_table(d);
    if i < d.len() {
        node_in_table(d, i);
        lies_in_sum(u, s.last().bytes(), 32 * i, d[i].bytes());
    } else {
        second_lies(u, s.last().bytes());
    }
}

proof fn adjacency_in_table(s: Seq<AdjacencyEntry>, i: int)
    requires
        0 <= i < s.len(),
    ensures
        crate::inspect::adjacency_table(s).len() == 8 * s.len(),
        crate::records::lies_at(crate::inspect::adjacency_table(s), 8 * i, s[i].bytes()),
    decreases s.len(),
{
    crate::inspect::table_lengths(Seq::empty(), s, Seq::empty());
    let d = s.drop_last();
    crate::inspect::table_lengths(Seq::empty(), d, Seq::empty());
    let u = crate::inspect::adjacency_table(d);
    if i < d.len() {
        adjacency_in_table(d, i);
        lies_in_sum(u, s.last().bytes(), 8 * i, d[i].bytes());
    } else {
        second_lies(u, s.last().bytes());
    }
}

proof fn edge_in_table(s: Seq<EdgeRecord>, i: int)
    requires
        0 <= i < s.len(),
    ensures
        crate::inspect::edge_table(s).len() == 40 * s.len(),
        crate::records::lies_at(crate::inspect::edge_table(s), 40 * i, s[i].bytes()),
    decreases s.len(),
{
    crate::inspect::table_lengths(Seq::empty(), Seq::empty(), s);
    let d = s.drop_last();
    crate::inspect::table_lengths(Seq::empty(), Seq::empty(), d);
    let u = crate::inspect::edge_table(d);
    if i < d.len() {
        edge_in_table(d, i);
        lies_in_sum(u, s.last().bytes(), 40 * i, d[i].bytes());
    } else {
        second_lies(u, s.last().bytes());
    }
}

/// Where the parts of a snapshot lie.
proof fn snapshot_parts(g: Graph, b: Seq<u8>)
    requires
        crate::records::lies_at(b, 0, g.snapshot()),
    ensures
        ({
            let n = g.all_live_ids().len() as int;
            &&& crate::records::lies_at(b, 0, g.snapshot_header().bytes())
            &&& crate::records::lies_at(b, 64, crate::inspect::node_table(g.snapshot_nodes()))
            &&& crate::records::lies_at(
                b,
                64 + 32 * n,
                crate::inspect::adjacency_table(g.snapshot_adjacency()),
            )
            &&& crate::records::lies_at(
                b,
                64 + 40 * n,
                crate::inspect::edge_table(g.snapshot_edges()),
            )
        }),
{
    let h = g.snapshot_header().bytes();
    let (n, a, e) = (g.snapshot_nodes(), g.snapshot_adjacency(), g.snapshot_edges());
    crate::records::header_length(g.snapshot_header());
    crate::inspect::table_lengths(n, a, e);
    let (tn, ta, te) = (
        crate::inspect::node_table(n),
        crate::inspect::adjacency_table(a),
        crate::inspect::edge_table(e),
    );
    let s = h + tn + ta + te;
    let c = g.all_live_ids().len() as int;
    assert(s == g.snapshot());
    assert(s.subrange(0, 64) =~= h);
    lies_within(b, 0, s, 0, h);
    assert(s.subrange(64, 64 + 32 * c) =~= tn);
    lies_within(b, 0, s, 64, tn);
    assert(s.subrange(64 + 32 * c, 64 + 40 * c) =~= ta);
    lies_within(b, 0, s, 64 + 32 * c, ta);
    assert(s.subrange(64 + 40 * c, 64 + 40 * c + te.len()) =~= te);
    lies_within(b, 0, s, 64 + 40 * c, te);
}

/// What a snapshot was written from is what is read from it: the header, every
/// node, where its edges are, and every edge.
pub proof fn snapshot_reads_back(g: Graph, b: Seq<u8>)
    requires
        g.wf(),
        crate::records::lies_at(b, 0, g.snapshot()),
    ensures
        crate::records::header_in(b) == g.snapshot_header(),
        forall|i: int|
            0 <= i < g.snapshot_nodes().len() ==> crate::records::node_in(
                b,
                g.snapshot_header().node_offset + 32 * i,
            ) == #[trigger] g.snapshot_nodes()[i],
        forall|i: int|
            0 <= i < g.snapshot_adjacency().len() ==> crate::records::adjacency_in(
                b,
                g.snapshot_header().adjacency_offset + 8 * i,
            ) == #[trigger] g.snapshot_adjacency()[i],
        forall|i: int|
            0 <= i < g.snapshot_edges().len() ==> crate::records::edge_in(
                b,
                g.snapshot_header().edge_offset + 40 * i,
            ) == #[trigger] g.snapshot_edges()[i],
{
    let h = g.snapshot_header();
    let c = g.all_live_ids().len() as int;
    crate::inspect::snapshot_counts(g);
    snapshot_parts(g, b);
    crate::records::header_reads_back(b, h);
    assert forall|i: int| 0 <= i < g.snapshot_nodes().len() implies crate::records::node_in(
        b,
        h.node_offset + 32 * i,
    ) == #[trigger] g.snapshot_nodes()[i] by {
        let s = g.snapshot_nodes();
        node_in_table(s, i);
        lies_within(b, 64, crate::inspect::node_table(s), 32 * i, s[i].bytes());
        crate::records::node_reads_back(b, 64 + 32 * i, s[i]);
    }
    assert forall|i: int|
        0 <= i < g.snapshot_adjacency().len() implies crate::records::adjacency_in(
        b,
        h.adjacency_offset + 8 * i,
    ) == #[trigger] g.snapshot_adjacency()[i] by {
        let s = g.snapshot_adjacency();
        adjacency_in_table(s, i);
        lies_within(b, 64 + 32 * c, crate::inspect::adjacency_table(s), 8 * i, s[i].bytes());
        crate::records::adjacency_reads_back(b, 64 + 32 * c + 8 * i, s[i]);
    }
    assert forall|i: int| 0 <= i < g.snapshot_edges().len() implies crate::records::edge_in(
        b,
        h.edge_offset + 40 * i,
    ) == #[trigger] g.snapshot_edges()[i] by {
        let s = g.snapshot_edges();
        edge_in_table(s, i);
        lies_within(b, 64 + 40 * c, crate::inspect::edge_table(s), 40 * i, s[i].bytes());
        crate::records::edge_reads_back(b, 64 + 40 * c + 40 * i, s[i]);
    }
}

/// The records of a node are one stretch of all of them.
pub proof fn stretch_of(v: GraphView, ids: Seq<NodeId>, i: int, n: int)
    requires
        0 <= i < n <= ids.len(),
    ensures
        ({
            let first = v.edges_below(ids, i).len();
            let own = v.node_edges(ids[i]);
            let all = v.edges_below(ids, n);
            first + own.len() <= all.len() && all.subrange(
                first as int,
                (first + own.len()) as int,
            ) == own
        }),
    decreases n,
{
    let first = v.edges_below(ids, i).len() as int;
    let own = v.node_edges(ids[i]);
    let all = v.edges_below(ids, n);
    if i == n - 1 {
        assert(all.subrange(first, first + own.len()) =~= own);
    } else {
        stretch_of(v, ids, i, n - 1);
        let less = v.edges_below(ids, n - 1);
        assert(all.subrange(first, first + own.len()) =~= less.subrange(
            first,
            first + own.len(),
        ));
    }
}

/// A node's entry in the adjacency table leads to its edges, and to no other:
/// a reader walks out of a node without searching.
pub proof fn adjacency_leads_to_the_edges(g: Graph, i: int)
    requires
        g.wf(),
        0 <= i < g.snapshot_adjacency().len(),
    ensures
        ({
            let a = g.snapshot_adjacency()[i];
            let e = g.snapshot_edges();
            &&& a.first + a.count <= e.len()
            &&& e.subrange(a.first as int, a.first + a.count) == g@.node_edges(g.all_live_ids()[i])
        }),
{
    let ids = g.all_live_ids();
    crate::inspect::snapshot_counts(g);
    stretch_of(g@, ids, i, ids.len() as int);
}

} // verus!

//! A text rendering of the whole graph, over the serial port.
//!
//! The same content as a snapshot, emitted by the kernel rather than requested
//! by a process. One tool shows every process, mapping, capability, wait queue
//! and name at once, which is the thing a conventional kernel cannot do.

use vstd::prelude::*;

use crate::body::{
    AddressSpace, Body, Cpu, Device, Endpoint, MemFlags, MemoryObject, NodeBody, Process, Root,
    Thread,
};
use crate::edge::{EdgeAttr, HoldsAttr, MapsAttr, NamedAttr, WaitingAttr};
use crate::graph::Graph;
use crate::id::{EdgeId, EdgeKind, NodeId};
use crate::limits::HANDLE_SLOTS;
use crate::text::{
    debug_str, push_class, push_dec, push_hex, push_node, push_rights, push_role, push_state, push_str,
};
use crate::view::GraphView;

verus! {

/// What sort of memory an object is.
pub open spec fn memory_text(f: MemFlags) -> Seq<u8> {
    if f.spec_contains(MemFlags(1)) {
        crate::text::lit("device"@)
    } else if f.spec_contains(MemFlags(2)) {
        crate::text::lit("pinned"@)
    } else {
        crate::text::lit("ram"@)
    }
}

/// What a line says of a body, after the id and the flags.
pub open spec fn body_text(b: Body) -> Seq<u8> {
    match b {
        Body::Root(n) => crate::text::lit(" ticks="@) + crate::text::dec(n.ticks as nat)
            + crate::text::lit(" frames="@) + crate::text::dec(n.free_frames as nat)
            + crate::text::lit("/"@) + crate::text::dec(n.total_frames as nat),
        Body::Cpu(n) => crate::text::lit(" lapic="@) + crate::text::dec(n.lapic_id as nat)
            + crate::text::lit(" current="@) + crate::text::node_text(n.current),
        Body::Process(n) => crate::text::lit(" handles="@) + crate::text::dec(
            crate::inspect::handles_used(n.handles@, HANDLE_SLOTS as int) as nat,
        ),
        Body::Thread(n) => crate::text::lit(" state="@) + crate::text::state_text(n.state)
            + crate::text::lit(" cr3="@) + crate::text::hex(n.cr3 as nat, 0),
        Body::AddressSpace(n) => crate::text::lit(" pml4="@) + crate::text::hex(
            n.pml4_phys as nat,
            12,
        ) + crate::text::lit(" mappings="@) + crate::text::dec(n.mapping_count as nat),
        Body::MemoryObject(n) => crate::text::lit(" phys="@) + crate::text::hex(
            n.phys_base as nat,
            12,
        ) + crate::text::lit(" pages="@) + crate::text::dec(n.pages as nat) + crate::text::lit(
            " "@,
        ) + memory_text(n.flags) + crate::text::lit(" maps="@) + crate::text::dec(
            n.map_count as nat,
        ),
        Body::Endpoint(_) => Seq::empty(),
        Body::Device(n) => crate::text::lit(" class="@) + crate::text::class_text(n.class)
            + crate::text::lit(" io="@) + crate::text::hex(n.io_base as nat, 4)
            + crate::text::lit(" irq="@) + crate::text::dec(n.irq as nat),
    }
}

impl GraphView {
    /// The line of a node.
    pub open spec fn node_line(self, id: NodeId) -> Seq<u8> {
        crate::text::lit("node "@) + crate::text::node_text(id) + crate::text::lit(" "@) + (
        if self.dying(id) {
            crate::text::lit("dying"@)
        } else {
            crate::text::lit("-"@)
        }) + body_text(self.nodes[id].body)
    }

    /// The line of an edge.
    pub open spec fn edge_line(self, e: u32) -> Seq<u8> {
        let x = self.edges[e];
        crate::text::lit("edge "@) + crate::text::lit(x.kind.spec_name()) + crate::text::lit(" "@)
            + crate::text::node_text(x.src) + crate::text::lit(" -> "@) + crate::text::node_text(
            x.dst,
        ) + attr_text(x.kind, x.data)
    }
}

/// What a line says of a name that has been put in quotes.
pub open spec fn name_text(q: Seq<char>) -> Seq<u8> {
    crate::text::lit(" name="@) + crate::text::lit(q)
}

pub fn push_name(out: &mut Vec<u8>, q: &str)
    ensures
        final(out)@ == old(out)@ + name_text(q@),
{
    push_str(out, " name=");
    push_str(out, q);
    assert(out@ =~= old(out)@ + name_text(q@));
}

/// What a line says of an edge's attributes.
pub open spec fn attr_text(kind: EdgeKind, data: Seq<u8>) -> Seq<u8> {
    match kind {
        EdgeKind::Holds => {
            let a = HoldsAttr::spec_decode(data);
            crate::text::lit(" rights="@) + crate::text::rights_text(a.rights) + crate::text::lit(
                " slot="@,
            ) + crate::text::dec(a.slot as nat)
        },
        EdgeKind::Maps => {
            let a = MapsAttr::spec_decode(data);
            crate::text::lit(" vaddr="@) + crate::text::hex(a.vaddr as nat, 12)
                + crate::text::lit(" pages="@) + crate::text::dec(a.len_pages as nat)
                + crate::text::lit(" off="@) + crate::text::dec(a.off_pages as nat)
                + crate::text::lit(" prot="@) + crate::text::hex(a.prot.0 as nat, 2)
        },
        EdgeKind::Named => {
            let a = NamedAttr::spec_decode(data);
            name_text(crate::text::quoted(crate::edge::text_of(a.name_bytes())))
        },
        EdgeKind::Waiting => {
            let a = WaitingAttr::spec_decode(data);
            crate::text::lit(" role="@) + crate::text::role_text(a.role) + crate::text::lit(
                " badge="@,
            ) + crate::text::dec(a.badge as nat)
        },
        _ => Seq::empty(),
    }
}

fn push_memory_kind(out: &mut Vec<u8>, f: MemFlags)
    ensures
        final(out)@ == old(out)@ + memory_text(f),
{
    if f.contains(MemFlags::device()) {
        push_str(out, "device");
    } else if f.contains(MemFlags::pinned()) {
        push_str(out, "pinned");
    } else {
        push_str(out, "ram");
    }
}

#[verifier::rlimit(50)]
fn push_memory(out: &mut Vec<u8>, n: &MemoryObject)
    ensures
        final(out)@ == old(out)@ + body_text(Body::MemoryObject(*n)),
{
    push_str(out, " phys=");
    push_hex(out, n.phys_base, 12);
    push_str(out, " pages=");
    push_dec(out, n.pages as u64);
    push_str(out, " ");
    push_memory_kind(out, n.flags);
    push_str(out, " maps=");
    push_dec(out, n.map_count as u64);
    assert(out@ =~= old(out)@ + body_text(Body::MemoryObject(*n)));
}

#[verifier::rlimit(50)]
fn push_root(out: &mut Vec<u8>, n: &Root)
    ensures
        final(out)@ == old(out)@ + body_text(Body::Root(*n)),
{
    push_str(out, " ticks=");
    push_dec(out, n.ticks);
    push_str(out, " frames=");
    push_dec(out, n.free_frames);
    push_str(out, "/");
    push_dec(out, n.total_frames);
    assert(out@ =~= old(out)@ + body_text(Body::Root(*n)));
}

fn push_cpu(out: &mut Vec<u8>, n: &Cpu)
    ensures
        final(out)@ == old(out)@ + body_text(Body::Cpu(*n)),
{
    push_str(out, " lapic=");
    push_dec(out, n.lapic_id as u64);
    push_str(out, " current=");
    push_node(out, n.current);
    assert(out@ =~= old(out)@ + body_text(Body::Cpu(*n)));
}

fn push_process(out: &mut Vec<u8>, n: &Process)
    ensures
        final(out)@ == old(out)@ + body_text(Body::Process(*n)),
{
    push_str(out, " handles=");
    push_dec(out, crate::inspect::count_handles(n));
    assert(out@ =~= old(out)@ + body_text(Body::Process(*n)));
}

fn push_thread(out: &mut Vec<u8>, n: &Thread)
    ensures
        final(out)@ == old(out)@ + body_text(Body::Thread(*n)),
{
    push_str(out, " state=");
    push_state(out, n.state);
    push_str(out, " cr3=");
    push_hex(out, n.cr3, 0);
    assert(out@ =~= old(out)@ + body_text(Body::Thread(*n)));
}

fn push_space(out: &mut Vec<u8>, n: &AddressSpace)
    ensures
        final(out)@ == old(out)@ + body_text(Body::AddressSpace(*n)),
{
    push_str(out, " pml4=");
    push_hex(out, n.pml4_phys, 12);
    push_str(out, " mappings=");
    push_dec(out, n.mapping_count as u64);
    assert(out@ =~= old(out)@ + body_text(Body::AddressSpace(*n)));
}

#[verifier::rlimit(50)]
fn push_device(out: &mut Vec<u8>, n: &Device)
    ensures
        final(out)@ == old(out)@ + body_text(Body::Device(*n)),
{
    push_str(out, " class=");
    push_class(out, n.class);
    push_str(out, " io=");
    push_hex(out, n.io_base as u64, 4);
    push_str(out, " irq=");
    push_dec(out, n.irq as u64);
    assert(out@ =~= old(out)@ + body_text(Body::Device(*n)));
}

/// What a line says of a node's body.
fn push_body(g: &Graph, id: NodeId, out: &mut Vec<u8>)
    requires
        g.wf(),
        g@.live(id),
    ensures
        final(out)@ == old(out)@ + body_text(g@.nodes[id].body),
{
    proof {
        assert(g@.nodes.contains_key(id));
        assert(g@.node_ok(id));
    }
    if let Some(x) = g.typed::<Root>(id) {
        if let Some(n) = g.body(x) {
            push_root(out, n);
            return;
        }
    }
    if let Some(x) = g.typed::<Cpu>(id) {
        if let Some(n) = g.body(x) {
            push_cpu(out, n);
            return;
        }
    }
    if let Some(x) = g.typed::<MemoryObject>(id) {
        if let Some(n) = g.body(x) {
            push_memory(out, n);
            return;
        }
    }
    if let Some(x) = g.typed::<Device>(id) {
        if let Some(n) = g.body(x) {
            push_device(out, n);
            return;
        }
    }
    if let Some(x) = g.typed::<Process>(id) {
        if let Some(n) = g.body(x) {
            push_process(out, n);
            return;
        }
    }
    if let Some(x) = g.typed::<Thread>(id) {
        if let Some(n) = g.body(x) {
            push_thread(out, n);
            return;
        }
    }
    if let Some(x) = g.typed::<AddressSpace>(id) {
        if let Some(n) = g.body(x) {
            push_space(out, n);
            return;
        }
    }
    assert(g@.nodes[id].body is Endpoint);
    assert(out@ =~= old(out)@ + body_text(g@.nodes[id].body));
}

/// One line about a node; nothing about one that is not there.
pub fn node_summary(g: &Graph, id: NodeId, out: &mut Vec<u8>)
    requires
        g.wf(),
    ensures
        final(out)@ == old(out)@ + if g@.live(id) {
            g@.node_line(id)
        } else {
            Seq::empty()
        },
{
    let dying: bool = match g.header(id) {
        Some(h) => h.is_dying(),
        None => {
            assert(out@ =~= old(out)@ + Seq::<u8>::empty());
            return;
        },
    };
    push_str(out, "node ");
    push_node(out, id);
    push_str(out, " ");
    if dying {
        push_str(out, "dying");
    } else {
        push_str(out, "-");
    }
    push_body(g, id, out);
    assert(out@ =~= old(out)@ + g@.node_line(id));
}

#[verifier::rlimit(50)]
fn push_attr(out: &mut Vec<u8>, kind: EdgeKind, data: crate::edge::RawEdgeData)
    ensures
        final(out)@ == old(out)@ + attr_text(kind, data.0@),
{
    match kind {
        EdgeKind::Holds => {
            let a = HoldsAttr::decode(data);
            push_str(out, " rights=");
            push_rights(out, a.rights);
            push_str(out, " slot=");
            push_dec(out, a.slot as u64);
        },
        EdgeKind::Maps => {
            let a = MapsAttr::decode(data);
            push_str(out, " vaddr=");
            push_hex(out, a.vaddr, 12);
            push_str(out, " pages=");
            push_dec(out, a.len_pages as u64);
            push_str(out, " off=");
            push_dec(out, a.off_pages as u64);
            push_str(out, " prot=");
            push_hex(out, a.prot.0 as u64, 2);
        },
        EdgeKind::Named => {
            let a = NamedAttr::decode(data);
            let q = debug_str(a.as_str());
            push_name(out, q.as_str());
        },
        EdgeKind::Waiting => {
            let a = WaitingAttr::decode(data);
            push_str(out, " role=");
            push_role(out, a.role);
            push_str(out, " badge=");
            push_dec(out, a.badge);
        },
        _ => {},
    }
    assert(out@ =~= old(out)@ + attr_text(kind, data.0@));
}

/// One line about an edge; nothing about one that is not there.
pub fn edge_line(g: &Graph, e: EdgeId, out: &mut Vec<u8>)
    requires
        g.wf(),
    ensures
        final(out)@ == old(out)@ + if g@.has_edge(e) {
            g@.edge_line(e.idx())
        } else {
            Seq::empty()
        },
{
    let edge = match g.edge(e) {
        Some(x) => x,
        None => {
            assert(out@ =~= old(out)@ + Seq::<u8>::empty());
            return;
        },
    };
    proof {
        assert(g.edge_live(e.idx()));
    }
    let kind = match edge.edge_kind() {
        Some(k) => k,
        None => return,
    };
    push_str(out, "edge ");
    push_str(out, kind.name());
    push_str(out, " ");
    push_node(out, edge.src);
    push_str(out, " -> ");
    push_node(out, edge.dst);
    push_attr(out, kind, edge.data);
    assert(out@ =~= old(out)@ + g@.edge_line(e.idx()));
}

// --------------------------------------------------------------- the graph ---

impl Graph {
    /// The first line of a dump.
    pub open spec fn dump_head(self) -> Seq<u8> {
        crate::text::lit("--- graph begin seq="@) + crate::text::dec(self@.seq as nat)
            + crate::text::lit(" nodes="@) + crate::text::dec(self.live_nodes_total())
            + crate::text::lit(" edges="@) + crate::text::dec(
            crate::arena::count_live(self.edges.books().gens),
        ) + crate::text::lit(" ---\n"@)
    }

    /// The lines of the first `n` live nodes.
    pub open spec fn dump_nodes(self, n: int) -> Seq<u8>
        decreases n,
    {
        if n <= 0 {
            Seq::empty()
        } else {
            self.dump_nodes(n - 1) + self@.node_line(self.all_live_ids()[n - 1])
                + crate::text::lit("\n"@)
        }
    }

    /// The lines of the first `n` live edges.
    pub open spec fn dump_edges(self, n: int) -> Seq<u8>
        decreases n,
    {
        if n <= 0 {
            Seq::empty()
        } else {
            self.dump_edges(n - 1) + self@.edge_line(self.all_live_edges()[n - 1].idx())
                + crate::text::lit("\n"@)
        }
    }

    /// The whole dump.
    pub open spec fn dump_text(self) -> Seq<u8> {
        self.dump_head() + self.dump_nodes(self.all_live_ids().len() as int) + self.dump_edges(
            self.all_live_edges().len() as int,
        ) + crate::text::lit("--- graph end ---\n"@)
    }
}

/// The whole graph, as text.
pub fn dump_graph(g: &Graph) -> (r: Vec<u8>)
    requires
        g.wf(),
    ensures
        r@ == g.dump_text(),
{
    let mut out: Vec<u8> = Vec::new();
    push_str(&mut out, "--- graph begin seq=");
    push_dec(&mut out, g.seq());
    push_str(&mut out, " nodes=");
    push_dec(&mut out, g.node_count() as u64);
    push_str(&mut out, " edges=");
    push_dec(&mut out, g.edge_count() as u64);
    push_str(&mut out, " ---\n");
    assert(out@ =~= g.dump_head());
    push_nodes(g, &mut out);
    push_edges(g, &mut out);
    push_str(&mut out, "--- graph end ---\n");
    assert(out@ =~= g.dump_text());
    out
}

fn push_nodes(g: &Graph, out: &mut Vec<u8>)
    requires
        g.wf(),
    ensures
        final(out)@ == old(out)@ + g.dump_nodes(g.all_live_ids().len() as int),
{
    let ghost o = out@;
    let nodes = g.live_nodes();
    proof {
        crate::walk::every_live_node_is_listed(*g);
    }
    let mut i: usize = 0;
    assert(out@ =~= o + g.dump_nodes(0));
    while i < nodes.len()
        invariant
            i <= nodes@.len(),
            g.wf(),
            o == old(out)@,
            nodes@ == g.all_live_ids(),
            forall|x: NodeId| #[trigger] g.all_live_ids().contains(x) <==> g.spec_live(x),
            out@ == o + g.dump_nodes(i as int),
        decreases nodes@.len() - i,
    {
        assert(nodes@.contains(nodes@[i as int]));
        assert(g@.nodes.contains_key(nodes@[i as int]));
        node_summary(g, nodes[i], out);
        push_str(out, "\n");
        i = i + 1;
        assert(out@ =~= o + g.dump_nodes(i as int));
    }
}

fn push_edges(g: &Graph, out: &mut Vec<u8>)
    requires
        g.wf(),
    ensures
        final(out)@ == old(out)@ + g.dump_edges(g.all_live_edges().len() as int),
{
    let ghost o = out@;
    let edges = g.live_edges();
    let mut i: usize = 0;
    assert(out@ =~= o + g.dump_edges(0));
    while i < edges.len()
        invariant
            i <= edges@.len(),
            g.wf(),
            o == old(out)@,
            edges@ == g.all_live_edges(),
            out@ == o + g.dump_edges(i as int),
        decreases edges@.len() - i,
    {
        proof {
            crate::walk::listed_edge_is_live(*g, i as int);
        }
        edge_line(g, edges[i], out);
        push_str(out, "\n");
        i = i + 1;
        assert(out@ =~= o + g.dump_edges(i as int));
    }
}

} // verus!

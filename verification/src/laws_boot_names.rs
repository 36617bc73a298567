//! A graph fresh from boot: what the kernel found is in it, under its name.

use vstd::prelude::*;

use crate::body::{Body, DeviceClass, NodeBody};
use crate::boot::{Asked, Facts, Module};
use crate::edge::{EdgeAttr, MapsAttr};
use crate::frames::Region;
use crate::graph::{Graph, GraphError, Ref};
use crate::id::{EdgeId, EdgeKind, NodeId};
use crate::state::BootNodes;
use crate::view::GraphView;

verus! {

impl GraphView {
    /// The root calls an object by a name.
    pub open spec fn named_as(self, root: NodeId, id: NodeId, name: Seq<char>) -> bool {
        exists|e: u32| #[trigger]
            self.edges.contains_key(e) && self.edges[e].kind == EdgeKind::Named && self.edges[e].src
                == root && self.edges[e].dst == id && self.edge_name(e) == name
    }

    /// The space maps the object so.
    pub open spec fn maps_object(self, s: NodeId, m: NodeId, attr: MapsAttr) -> bool {
        exists|e: u32| #[trigger]
            self.edges.contains_key(e) && self.edges[e].kind == EdgeKind::Maps && self.edges[e].src
                == s && self.edges[e].dst == m && self.maps(e) == attr
    }
}

proof fn naming_is_kept(v: GraphView, w: GraphView, root: NodeId, id: NodeId, name: Seq<char>)
    requires
        w.edges_kept(v),
        v.named_as(root, id, name),
    ensures
        w.named_as(root, id, name),
{
    let e = choose|e: u32| #[trigger]
        v.edges.contains_key(e) && v.edges[e].kind == EdgeKind::Named && v.edges[e].src == root
            && v.edges[e].dst == id && v.edge_name(e) == name;
    assert(w.edges.contains_key(e));
    assert(w.edge_name(e) == v.edge_name(e));
}

proof fn a_mapping_is_kept(v: GraphView, w: GraphView, s: NodeId, m: NodeId, attr: MapsAttr)
    requires
        w.edges_kept(v),
        v.maps_object(s, m, attr),
    ensures
        w.maps_object(s, m, attr),
{
    let e = choose|e: u32| #[trigger]
        v.edges.contains_key(e) && v.edges[e].kind == EdgeKind::Maps && v.edges[e].src == s
            && v.edges[e].dst == m && v.maps(e) == attr;
    assert(w.edges.contains_key(e));
    assert(w.maps(e) == v.maps(e));
}

/// An item of the script is made as it was asked for, and under its name where
/// it must have one.
proof fn an_item_is_made(g0: Graph, g1: Graph, root: NodeId, a: Asked, id: NodeId)
    requires
        g0.wf(),
        crate::state::item_made(g0, g1, root, a, Ok::<NodeId, GraphError>(id)),
    ensures
        g1@.edges_kept(g0@),
        g1@.live(id),
        g1@.nodes[id].body == a.body,
        g1@.owns(root, id),
        a.strict && a.name is Some ==> g1@.named_as(root, id, a.name->Some_0),
        forall|n: NodeId| #[trigger]
            g0@.nodes.contains_key(n) ==> g1@.nodes.contains_key(n) && g1@.nodes[n].body
                == g0@.nodes[n].body,
{
    let r = Ok::<NodeId, GraphError>(id);
    let x = g0.next_node(a.body.kind());
    let ga = choose|ga: Graph| #[trigger]
        crate::state::node_made(g0, ga, root, a.body) && crate::state::name_given(
            ga,
            g1,
            root,
            x,
            a.name,
            a.strict,
            r,
        );
    crate::laws_ipc::next_edge_is_unused(g0);
    let e = g0.next_edge().idx();
    assert(ga@.edges.contains_key(e));
    assert(ga@.owns(root, x));
    assert(ga@.nodes.contains_key(x));
    if let Some(n) = a.name {
        if crate::state::name_refusal(ga, root, x, n) is None {
            crate::laws_ipc::next_edge_is_unused(ga);
            crate::names::name_reads_back(n);
            let k = ga.next_edge().idx();
            assert(g1@.edges.contains_key(k));
            assert(g1@.edge_name(k) == n);
        }
    }
    assert(g1@.edges.contains_key(e));
}

/// What one item of the script made, the rest leave.
proof fn items_stay(
    trace: Seq<Graph>,
    ids: Seq<NodeId>,
    g0: Graph,
    g1: Graph,
    root: NodeId,
    items: Seq<Asked>,
    rs: Result<(), GraphError>,
    i: int,
    k: int,
)
    requires
        crate::state::script_steps(trace, ids, g0, g1, root, items, rs),
        rs is Ok,
        0 <= i <= k <= ids.len(),
    ensures
        trace[k]@.edges_kept(trace[i]@),
    decreases k - i,
{
    if i < k {
        items_stay(trace, ids, g0, g1, root, items, rs, i, k - 1);
        assert(trace[k - 1].wf());
        assert(crate::state::item_made(
            trace[k - 1],
            trace[k - 1 + 1],
            root,
            items[k - 1],
            Ok::<NodeId, GraphError>(ids[k - 1]),
        ));
        an_item_is_made(trace[k - 1], trace[k], root, items[k - 1], ids[k - 1]);
        assert forall|e: u32| #[trigger] trace[i]@.edges.contains_key(e) implies trace[k]@.edges.contains_key(
            e,
        ) && trace[k]@.edges[e] == trace[i]@.edges[e] by {
            assert(trace[k - 1]@.edges.contains_key(e));
        }
    }
}

/// Every item of the script that must have a name has it, when the script is
/// done.
proof fn the_script_names_things(
    ids: Seq<NodeId>,
    g0: Graph,
    g1: Graph,
    root: NodeId,
    items: Seq<Asked>,
    rs: Result<(), GraphError>,
    i: int,
)
    requires
        crate::state::script_run(ids, g0, g1, root, items, rs),
        rs is Ok,
        0 <= i < items.len(),
        items[i].strict,
        items[i].name is Some,
    ensures
        ids.len() == items.len(),
        g1@.named_as(root, ids[i], items[i].name->Some_0),
        g1.wf(),
{
    let trace = choose|trace: Seq<Graph>| #[trigger]
        crate::state::script_steps(trace, ids, g0, g1, root, items, rs);
    assert(trace[i].wf());
    assert(crate::state::item_made(
        trace[i],
        trace[i + 1],
        root,
        items[i],
        Ok::<NodeId, GraphError>(ids[i]),
    ));
    an_item_is_made(trace[i], trace[i + 1], root, items[i], ids[i]);
    items_stay(trace, ids, g0, g1, root, items, rs, i + 1, ids.len() as int);
    assert(trace[ids.len() as int] == g1);
    assert(trace[trace.len() - 1].wf());
    naming_is_kept(trace[i + 1]@, g1@, root, ids[i], items[i].name->Some_0);
}

/// A mapping recorded is an edge more.
proof fn a_mapping_is_recorded(
    g0: Graph,
    g1: Graph,
    s: NodeId,
    m: NodeId,
    attr: MapsAttr,
    r: Result<EdgeId, GraphError>,
)
    requires
        g0.wf(),
        crate::state::map_recorded(g0, g1, s, m, attr, r),
        r is Ok,
    ensures
        g1@.edges_kept(g0@),
        g1@.maps_object(s, m, attr),
{
    crate::laws_ipc::next_edge_is_unused(g0);
    attr.round_trip();
    let e = g0.next_edge().idx();
    assert(g1@.edges.contains_key(e));
}

/// The last step: the console is made under its name, and the root counts the
/// frames.
proof fn the_console_is_made(
    gd: Graph,
    g1: Graph,
    root: NodeId,
    entries: Seq<Region>,
    f: Facts,
    ids: Seq<NodeId>,
    b: BootNodes,
)
    requires
        gd.wf(),
        gd@.live(root),
        root.kind() == Some(crate::id::NodeKind::Root),
        crate::state::console_made(
            gd,
            g1,
            root,
            entries,
            f,
            ids,
            Ok::<BootNodes, GraphError>(b),
        ),
    ensures
        g1@.edges_kept(gd@),
        is_console(g1@, b.console, f.serial_io_base),
        g1@.named_as(root, b.console, "console"@),
        g1@.nodes[root].body matches Body::Root(n) && n.total_frames == f.total_frames
            && n.free_frames == f.free_frames,
        b == crate::state::boot_nodes(entries, ids, root, b.console),
{
    let r = Ok::<BootNodes, GraphError>(b);
    let (ge, rc) = choose|ge: Graph, rc: Result<NodeId, GraphError>| #[trigger]
        crate::state::item_made(gd, ge, root, crate::state::console_asked(f), rc) && ge.wf()
            && match rc {
            Err(e) => r == Err::<BootNodes, GraphError>(e) && g1 == ge,
            Ok(dev) => r == Ok::<BootNodes, GraphError>(
                crate::state::boot_nodes(entries, ids, root, dev),
            ) && g1@ == crate::state::counted(ge@, root, f.total_frames, f.free_frames),
        };
    let dev = rc->Ok_0;
    an_item_is_made(gd, ge, root, crate::state::console_asked(f), dev);
    assert(gd@.nodes.contains_key(root));
    assert(ge@.nodes.contains_key(root) && ge@.node_ok(root));
    assert(ge@.nodes.contains_key(dev) && ge@.node_ok(dev));
    assert(dev != root);
    naming_is_kept(ge@, g1@, root, dev, "console"@);
}

/// The serial console, at its port.
pub open spec fn is_console(v: GraphView, id: NodeId, io_base: u16) -> bool {
    &&& v.live(id)
    &&& v.nodes[id].body matches Body::Device(d) && d.class == DeviceClass::SerialConsole
        && d.io_base == io_base
}

/// After boot the root names the cpu, physical memory, the kernel's
/// space and the console, each by its own name. The console is the serial port
/// that was found. The kernel's space maps all of physical memory where the
/// direct map is, to be read and written by the kernel alone. The root knows how
/// many frames there are, and how many are free.
#[verifier::spinoff_prover]
pub proof fn boot_fills_the_graph(
    g0: Graph,
    g1: Graph,
    entries: Seq<Region>,
    modules: Seq<Module<'_>>,
    f: Facts,
    b: BootNodes,
)
    requires
        g0.wf(),
        crate::state::populated(
            g0,
            g1,
            entries,
            modules,
            f,
            Ok::<BootNodes, GraphError>(b),
        ),
    ensures
        g1@.named_as(b.root, b.cpu0, "cpu0"@),
        g1@.named_as(b.root, b.phys_memory, "physical-memory"@),
        g1@.named_as(b.root, b.kernel_space, "kernel-space"@),
        g1@.named_as(b.root, b.console, "console"@),
        is_console(g1@, b.console, f.serial_io_base),
        exists|attr: MapsAttr| #[trigger]
            g1@.maps_object(b.kernel_space, b.phys_memory, attr) && attr.vaddr == f.hhdm
                && attr.len_pages == f.total_frames as u32 && attr.off_pages == 0 && attr.prot.0
                == 3,
        g1@.nodes[b.root].body matches Body::Root(n) && n.total_frames == f.total_frames
            && n.free_frames == f.free_frames,
{
    let r = Ok::<BootNodes, GraphError>(b);
    let (ga, rr) = choose|ga: Graph, rr: Result<Ref<crate::body::Root>, GraphError>| #[trigger]
        crate::state::root_made(g0, ga, rr) && ga.wf() && match rr {
            Err(e) => r == Err::<BootNodes, GraphError>(e) && g1 == ga,
            Ok(root) => crate::state::nodes_made(ga, g1, root.id(), entries, modules, f, r),
        };
    let root = rr->Ok_0.id();
    assert(ga@.nodes.contains_key(root));
    assert(ga@.node_ok(root));
    the_nodes_fill_the_graph(ga, g1, root, entries, modules, f, b);
    assert(g1@.maps_object(b.kernel_space, b.phys_memory, crate::state::direct_map(f)));
}

/// The same, once there is a root.
#[verifier::spinoff_prover]
proof fn the_nodes_fill_the_graph(
    ga: Graph,
    g1: Graph,
    root: NodeId,
    entries: Seq<Region>,
    modules: Seq<Module<'_>>,
    f: Facts,
    b: BootNodes,
)
    requires
        ga@.live(root),
        root.kind() == Some(crate::id::NodeKind::Root),
        crate::state::nodes_made(
            ga,
            g1,
            root,
            entries,
            modules,
            f,
            Ok::<BootNodes, GraphError>(b),
        ),
    ensures
        b.root == root,
        g1@.named_as(root, b.cpu0, "cpu0"@),
        g1@.named_as(root, b.phys_memory, "physical-memory"@),
        g1@.named_as(root, b.kernel_space, "kernel-space"@),
        g1@.named_as(root, b.console, "console"@),
        is_console(g1@, b.console, f.serial_io_base),
        g1@.maps_object(b.kernel_space, b.phys_memory, crate::state::direct_map(f)),
        g1@.nodes[root].body matches Body::Root(n) && n.total_frames == f.total_frames
            && n.free_frames == f.free_frames,
{
    let r = Ok::<BootNodes, GraphError>(b);
    let script = crate::boot::boot_script(entries, modules, f);
    let (gb, ids, rs) = choose|gb: Graph, ids: Seq<NodeId>, rs: Result<(), GraphError>| #[trigger]
        crate::state::script_run(
            ids,
            ga,
            gb,
            root,
            crate::boot::boot_script(entries, modules, f),
            rs,
        ) && match rs {
            Err(e) => r == Err::<BootNodes, GraphError>(e) && g1 == gb,
            Ok(_) => crate::state::memory_mapped(gb, g1, root, entries, f, ids, r),
        };
    script_ends(entries, modules, f);
    assert(rs is Ok);
    out_of_the_script(ids, ga, gb, root, script, rs);
    the_kernel_is_mapped(gb, g1, root, entries, f, ids, b);
    let n = ids.len() as int;
    naming_is_kept(gb@, g1@, root, ids[0], "cpu0"@);
    naming_is_kept(gb@, g1@, root, ids[n - 1], "kernel-space"@);
    naming_is_kept(gb@, g1@, root, ids[n - 2], "physical-memory"@);
}

/// What the first item of a script and its last two leave behind.
proof fn out_of_the_script(ids: Seq<NodeId>, ga: Graph, gb: Graph, root: NodeId, items: Seq<Asked>, rs: Result<(), GraphError>)
    requires
        crate::state::script_run(ids, ga, gb, root, items, rs),
        rs is Ok,
        ga@.live(root),
        items.len() >= 3,
        items[0].name == Some("cpu0"@) && items[0].strict,
        items[items.len() - 1].name == Some("kernel-space"@) && items[items.len() - 1].strict,
        items[items.len() - 2].name == Some("physical-memory"@) && items[items.len() - 2].strict,
    ensures
        gb.wf(),
        gb@.live(root),
        ids.len() == items.len(),
        gb@.named_as(root, ids[0], "cpu0"@),
        gb@.named_as(root, ids[ids.len() - 1], "kernel-space"@),
        gb@.named_as(root, ids[ids.len() - 2], "physical-memory"@),
{
    let n = items.len() as int;
    the_script_names_things(ids, ga, gb, root, items, rs, 0);
    the_script_names_things(ids, ga, gb, root, items, rs, n - 1);
    the_script_names_things(ids, ga, gb, root, items, rs, n - 2);
    the_root_stays(ids, ga, gb, root, items, rs);
}

/// The root is still there when the script is done.
proof fn the_root_stays(ids: Seq<NodeId>, g0: Graph, g1: Graph, root: NodeId, items: Seq<Asked>, rs: Result<(), GraphError>)
    requires
        crate::state::script_run(ids, g0, g1, root, items, rs),
        rs is Ok,
        g0@.live(root),
    ensures
        g1@.live(root),
{
    let trace = choose|trace: Seq<Graph>| #[trigger]
        crate::state::script_steps(trace, ids, g0, g1, root, items, rs);
    the_root_stays_until(trace, ids, g0, g1, root, items, rs, ids.len() as int);
    assert(trace[ids.len() as int] == g1);
}

proof fn the_root_stays_until(
    trace: Seq<Graph>,
    ids: Seq<NodeId>,
    g0: Graph,
    g1: Graph,
    root: NodeId,
    items: Seq<Asked>,
    rs: Result<(), GraphError>,
    k: int,
)
    requires
        crate::state::script_steps(trace, ids, g0, g1, root, items, rs),
        rs is Ok,
        g0@.live(root),
        0 <= k <= ids.len(),
    ensures
        trace[k]@.live(root),
    decreases k,
{
    if k > 0 {
        the_root_stays_until(trace, ids, g0, g1, root, items, rs, k - 1);
        assert(trace[k - 1].wf());
        assert(crate::state::item_made(
            trace[k - 1],
            trace[k - 1 + 1],
            root,
            items[k - 1],
            Ok::<NodeId, GraphError>(ids[k - 1]),
        ));
        an_item_is_made(trace[k - 1], trace[k], root, items[k - 1], ids[k - 1]);
        assert(trace[k - 1]@.nodes.contains_key(root));
    }
}

/// The first item and the last two of the script.
proof fn script_ends(entries: Seq<Region>, modules: Seq<Module<'_>>, f: Facts)
    ensures
        ({
            let s = crate::boot::boot_script(entries, modules, f);
            let n = s.len() as int;
            &&& n >= 3
            &&& s[0].name == Some("cpu0"@) && s[0].strict
            &&& s[n - 1].name == Some("kernel-space"@) && s[n - 1].strict
            &&& s[n - 2].name == Some("physical-memory"@) && s[n - 2].strict
        }),
{
    let s = crate::boot::boot_script(entries, modules, f);
    let a = crate::boot::one(Body::Cpu(crate::body::Cpu::spec_zero()), "cpu0"@);
    let y = crate::boot::one(
        crate::boot::memory(0, f.total_frames as u32, crate::body::MemFlags(2)),
        "physical-memory"@,
    );
    let z = crate::boot::one(crate::boot::kernel_space(f), "kernel-space"@);
    let n = s.len() as int;
    assert(s[0] == a[0]);
    assert(s[n - 1] == z[0]);
    assert(s[n - 2] == y[0]);
}

/// The kernel's mappings are recorded, and the rest.
proof fn the_kernel_is_mapped(
    gb: Graph,
    g1: Graph,
    root: NodeId,
    entries: Seq<Region>,
    f: Facts,
    ids: Seq<NodeId>,
    b: BootNodes,
)
    requires
        gb.wf(),
        gb@.live(root),
        root.kind() == Some(crate::id::NodeKind::Root),
        crate::state::memory_mapped(
            gb,
            g1,
            root,
            entries,
            f,
            ids,
            Ok::<BootNodes, GraphError>(b),
        ),
    ensures
        g1@.edges_kept(gb@),
        is_console(g1@, b.console, f.serial_io_base),
        g1@.named_as(root, b.console, "console"@),
        g1@.nodes[root].body matches Body::Root(n) && n.total_frames == f.total_frames
            && n.free_frames == f.free_frames,
        b == crate::state::boot_nodes(entries, ids, root, b.console),
        g1@.maps_object(b.kernel_space, b.phys_memory, crate::state::direct_map(f)),
{
    let r = Ok::<BootNodes, GraphError>(b);
    let x = crate::state::boot_nodes(entries, ids, root, NodeId(0));
    let all = crate::state::direct_map(f);
    let (gc, rm) = choose|gc: Graph, rm: Result<EdgeId, GraphError>| #[trigger]
        crate::state::map_recorded(gb, gc, x.kernel_space, x.phys_memory, all, rm) && gc.wf()
            && match rm {
            Err(e) => r == Err::<BootNodes, GraphError>(e) && g1 == gc,
            Ok(_) => crate::state::image_mapped(gc, g1, root, entries, f, ids, r),
        };
    a_mapping_is_recorded(gb, gc, x.kernel_space, x.phys_memory, all, rm);
    assert(gb@.nodes.contains_key(root));
    if x.kernel_image == NodeId(0) {
        the_console_is_made(gc, g1, root, entries, f, ids, b);
        a_mapping_is_kept(gc@, g1@, x.kernel_space, x.phys_memory, all);
    } else {
        let attr = crate::state::image_map(gc@.memobj(x.kernel_image).pages);
        let (gd, ri) = choose|gd: Graph, ri: Result<EdgeId, GraphError>| #[trigger]
            crate::state::map_recorded(gc, gd, x.kernel_space, x.kernel_image, attr, ri) && gd.wf()
                && match ri {
                Err(e) => r == Err::<BootNodes, GraphError>(e) && g1 == gd,
                Ok(_) => crate::state::console_made(gd, g1, root, entries, f, ids, r),
            };
        a_mapping_is_recorded(gc, gd, x.kernel_space, x.kernel_image, attr, ri);
        assert(gc@.nodes.contains_key(root));
        the_console_is_made(gd, g1, root, entries, f, ids, b);
        a_mapping_is_kept(gc@, gd@, x.kernel_space, x.phys_memory, all);
        a_mapping_is_kept(gd@, g1@, x.kernel_space, x.phys_memory, all);
    }
    assert forall|e: u32| #[trigger] gb@.edges.contains_key(e) implies g1@.edges.contains_key(e)
        && g1@.edges[e] == gb@.edges[e] by {
        assert(gc@.edges.contains_key(e));
    }
}

} // verus!

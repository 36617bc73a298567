//! Boot makes a graph that keeps every invariant, however far it gets.

use vstd::prelude::*;

use crate::body::{Body, Root};
use crate::boot::{Asked, Facts, Module};
use crate::edge::MapsAttr;
use crate::frames::Region;
use crate::graph::{Graph, GraphError, Ref};
use crate::id::{EdgeId, NodeId, NodeKind};
use crate::state::BootNodes;
use crate::view::GraphView;

verus! {

/// Carrying out one item of the script keeps every invariant.
proof fn making_an_item_keeps_invariants(
    g0: Graph,
    g1: Graph,
    root: NodeId,
    a: Asked,
    r: Result<NodeId, GraphError>,
)
    requires
        g0.wf(),
        g0@.inv(),
        root.kind() == Some(NodeKind::Root),
        a.body.bounded(),
        a.body.fresh(),
        a.body.kind() != NodeKind::Root,
        crate::state::item_made(g0, g1, root, a, r),
    ensures
        g1@.inv(),
{
    if g0.create_refusal(root, a.body.kind()) is None {
        let id = g0.next_node(a.body.kind());
        let ga = choose|ga: Graph| #[trigger]
            crate::state::node_made(g0, ga, root, a.body) && crate::state::name_given(
                ga,
                g1,
                root,
                id,
                a.name,
                a.strict,
                r,
            );
        let e = g0.next_edge();
        crate::laws_ipc::next_edge_is_unused(g0);
        assert(ga@.nodes.contains_key(id));
        assert(ga.spec_live(id));
        assert(ga@.node_ok(id));
        crate::laws_make::creating_keeps_invariants(
            g0@,
            root,
            id,
            a.body,
            e.idx(),
            e.generation(),
        );
        if let Some(n) = a.name {
            if crate::state::name_refusal(ga, root, id, n) is None {
                let x = ga.next_edge();
                crate::laws_ipc::next_edge_is_unused(ga);
                crate::laws_make::naming_keeps_invariants(
                    ga@,
                    root,
                    id,
                    crate::names::name_data(n),
                    x.idx(),
                    x.generation(),
                );
            }
        }
    }
}

/// Every graph that running the script goes through keeps the invariants.
proof fn running_the_script_keeps_invariants(
    trace: Seq<Graph>,
    ids: Seq<NodeId>,
    g0: Graph,
    g1: Graph,
    root: NodeId,
    items: Seq<Asked>,
    r: Result<(), GraphError>,
    n: int,
)
    requires
        g0@.inv(),
        root.kind() == Some(NodeKind::Root),
        forall|i: int|
            0 <= i < items.len() ==> (#[trigger] items[i]).body.bounded() && items[i].body.fresh()
                && items[i].body.kind() != NodeKind::Root,
        crate::state::script_steps(trace, ids, g0, g1, root, items, r),
        0 <= n < trace.len(),
    ensures
        trace[n]@.inv(),
    decreases n,
{
    if n > 0 {
        running_the_script_keeps_invariants(trace, ids, g0, g1, root, items, r, n - 1);
        let was = trace[n - 1];
        let item = items[n - 1];
        assert(was.wf());
        if n <= ids.len() {
            let id = ids[n - 1];
            assert(crate::state::item_made(
                trace[n - 1],
                trace[n - 1 + 1],
                root,
                items[n - 1],
                Ok::<NodeId, GraphError>(id),
            ));
            making_an_item_keeps_invariants(
                was,
                trace[n],
                root,
                item,
                Ok::<NodeId, GraphError>(id),
            );
        } else {
            making_an_item_keeps_invariants(
                was,
                trace[n],
                root,
                item,
                Err::<NodeId, GraphError>(r->Err_0),
            );
        }
    }
}

/// Recording a mapping keeps every invariant, whether or not it is refused.
proof fn recording_a_mapping_keeps_invariants(
    g0: Graph,
    g1: Graph,
    s: NodeId,
    m: NodeId,
    attr: MapsAttr,
    r: Result<EdgeId, GraphError>,
)
    requires
        g0.wf(),
        g0@.inv(),
        s.kind() == Some(NodeKind::AddressSpace),
        m.kind() == Some(NodeKind::MemoryObject),
        g0@.live(m) ==> g0@.memobj(m).map_count < u32::MAX,
        crate::state::map_recorded(g0, g1, s, m, attr, r),
    ensures
        g1@.inv(),
{
    if g0.map_refusal(s, m, attr) is None {
        crate::laws_ipc::next_edge_is_unused(g0);
        crate::laws_spawn::a_place_in_the_index(g0@, s, attr.vaddr, 0);
        crate::laws_make::mapping_keeps_invariants(g0@, s, m, attr, g0.next_edge());
    }
}

/// Writing the frame counts keeps every invariant.
pub proof fn counting_keeps_invariants(v: GraphView, root: NodeId, total: u64, free: u64)
    requires
        v.wf(),
        v.inv(),
        root.kind() == Some(NodeKind::Root),
    ensures
        crate::state::counted(v, root, total, free).inv(),
{
    if v.live(root) {
        assert(v.nodes.contains_key(root));
        assert(v.node_ok(root));
        crate::laws_run::unlisted_body_change_keeps_invariants(
            v,
            root,
            Body::Root(
                Root { total_frames: total, free_frames: free, ..v.nodes[root].body->Root_0 },
            ),
        );
    }
}

/// Making the console, and counting the frames, keeps every invariant.
proof fn making_the_console_keeps_invariants(
    gd: Graph,
    g1: Graph,
    root: NodeId,
    entries: Seq<Region>,
    f: Facts,
    ids: Seq<NodeId>,
    r: Result<BootNodes, GraphError>,
)
    requires
        gd.wf(),
        gd@.inv(),
        root.kind() == Some(NodeKind::Root),
        crate::state::console_made(gd, g1, root, entries, f, ids, r),
    ensures
        g1@.inv(),
{
    let (ge, rc) = choose|ge: Graph, rc: Result<NodeId, GraphError>| #[trigger]
        crate::state::item_made(gd, ge, root, crate::state::console_asked(f), rc) && ge.wf()
            && match rc {
            Err(e) => r == Err::<BootNodes, GraphError>(e) && g1 == ge,
            Ok(dev) => r == Ok::<BootNodes, GraphError>(
                crate::state::boot_nodes(entries, ids, root, dev),
            ) && g1@ == crate::state::counted(ge@, root, f.total_frames, f.free_frames),
        };
    making_an_item_keeps_invariants(gd, ge, root, crate::state::console_asked(f), rc);
    counting_keeps_invariants(ge@, root, f.total_frames, f.free_frames);
}

/// Recording the kernel's mappings, and the rest, keeps every invariant.
proof fn mapping_memory_keeps_invariants(
    gb: Graph,
    g1: Graph,
    root: NodeId,
    entries: Seq<Region>,
    f: Facts,
    ids: Seq<NodeId>,
    r: Result<BootNodes, GraphError>,
)
    requires
        gb.wf(),
        gb@.inv(),
        root.kind() == Some(NodeKind::Root),
        ({
            let b = crate::state::boot_nodes(entries, ids, root, NodeId(0));
            &&& b.kernel_space.kind() == Some(NodeKind::AddressSpace)
            &&& b.phys_memory.kind() == Some(NodeKind::MemoryObject)
            &&& gb@.live(b.phys_memory) && gb@.memobj(b.phys_memory).map_count == 0
            &&& b.kernel_image != NodeId(0) ==> b.kernel_image.kind() == Some(
                NodeKind::MemoryObject,
            ) && gb@.live(b.kernel_image) && gb@.memobj(b.kernel_image).map_count == 0
        }),
        crate::state::memory_mapped(gb, g1, root, entries, f, ids, r),
    ensures
        g1@.inv(),
{
    let b = crate::state::boot_nodes(entries, ids, root, NodeId(0));
    let all = crate::state::direct_map(f);
    let (gc, rm) = choose|gc: Graph, rm: Result<EdgeId, GraphError>| #[trigger]
        crate::state::map_recorded(gb, gc, b.kernel_space, b.phys_memory, all, rm) && gc.wf()
            && match rm {
            Err(e) => r == Err::<BootNodes, GraphError>(e) && g1 == gc,
            Ok(_) => crate::state::image_mapped(gc, g1, root, entries, f, ids, r),
        };
    recording_a_mapping_keeps_invariants(gb, gc, b.kernel_space, b.phys_memory, all, rm);
    if rm is Ok {
        if b.kernel_image == NodeId(0) {
            making_the_console_keeps_invariants(gc, g1, root, entries, f, ids, r);
        } else {
            assert(gb@.nodes.contains_key(b.kernel_image));
            assert(gb@.nodes.contains_key(b.phys_memory));
            assert(gc@.memobj(b.kernel_image).map_count <= 1);
            let attr = crate::state::image_map(gc@.memobj(b.kernel_image).pages);
            let (gd, ri) = choose|gd: Graph, ri: Result<EdgeId, GraphError>| #[trigger]
                crate::state::map_recorded(
                    gc,
                    gd,
                    b.kernel_space,
                    b.kernel_image,
                    attr,
                    ri,
                ) && gd.wf() && match ri {
                    Err(e) => r == Err::<BootNodes, GraphError>(e) && g1 == gd,
                    Ok(_) => crate::state::console_made(gd, g1, root, entries, f, ids, r),
                };
            recording_a_mapping_keeps_invariants(gc, gd, b.kernel_space, b.kernel_image, attr, ri);
            if ri is Ok {
                making_the_console_keeps_invariants(gd, g1, root, entries, f, ids, r);
            }
        }
    }
}

/// Making the nodes of the script, and the rest, keeps every invariant.
#[verifier::rlimit(40)]
proof fn making_the_nodes_keeps_invariants(
    ga: Graph,
    g1: Graph,
    root: NodeId,
    entries: Seq<Region>,
    modules: Seq<Module<'_>>,
    f: Facts,
    r: Result<BootNodes, GraphError>,
)
    requires
        ga.wf(),
        ga@.inv(),
        root.kind() == Some(NodeKind::Root),
        forall|i: int|
            0 <= i < entries.len() && (#[trigger] entries[i]).kind
                == crate::frames::RegionKind::ExecutableAndModules ==> crate::state::image_map(
                crate::boot::spec_pages_for(entries[i].length),
            ).fits(),
        crate::state::nodes_made(ga, g1, root, entries, modules, f, r),
    ensures
        g1@.inv(),
{
    let script = crate::boot::boot_script(entries, modules, f);
    let (gb, ids, rs) = choose|gb: Graph, ids: Seq<NodeId>, rs: Result<(), GraphError>| #[trigger]
        crate::state::script_run(ids, ga, gb, root, script, rs) && match rs {
            Err(e) => r == Err::<BootNodes, GraphError>(e) && g1 == gb,
            Ok(_) => crate::state::memory_mapped(gb, g1, root, entries, f, ids, r),
        };
    script_run_keeps_invariants(ids, ga, gb, root, entries, modules, f, rs);
    if rs is Ok {
        crate::state::boot_located(gb@, entries, modules, f, ids, root);
        mapping_memory_keeps_invariants(gb, g1, root, entries, f, ids, r);
    }
}

/// Running the script keeps every invariant, and the nodes it made are there.
proof fn script_run_keeps_invariants(
    ids: Seq<NodeId>,
    ga: Graph,
    gb: Graph,
    root: NodeId,
    entries: Seq<Region>,
    modules: Seq<Module<'_>>,
    f: Facts,
    rs: Result<(), GraphError>,
)
    requires
        ga@.inv(),
        root.kind() == Some(NodeKind::Root),
        crate::state::script_run(
            ids,
            ga,
            gb,
            root,
            crate::boot::boot_script(entries, modules, f),
            rs,
        ),
    ensures
        gb.wf(),
        gb@.inv(),
        rs is Ok ==> ids.len() == crate::boot::boot_script(entries, modules, f).len(),
        forall|i: int|
            0 <= i < ids.len() ==> gb@.live(#[trigger] ids[i]) && gb@.nodes[ids[i]].body
                == crate::boot::boot_script(entries, modules, f)[i].body,
{
    let script = crate::boot::boot_script(entries, modules, f);
    crate::state::script_layout(entries, modules, f);
    let trace = choose|trace: Seq<Graph>| #[trigger]
        crate::state::script_steps(trace, ids, ga, gb, root, script, rs);
    running_the_script_keeps_invariants(trace, ids, ga, gb, root, script, rs, trace.len() - 1);
    assert(trace[trace.len() - 1].wf());
}

/// Boot keeps every invariant, whether it finishes or is refused on the way.
pub proof fn booting_keeps_invariants(
    g0: Graph,
    g1: Graph,
    entries: Seq<Region>,
    modules: Seq<Module<'_>>,
    f: Facts,
    r: Result<BootNodes, GraphError>,
)
    requires
        g0.wf(),
        g0@.inv(),
        forall|i: int|
            0 <= i < entries.len() && (#[trigger] entries[i]).kind
                == crate::frames::RegionKind::ExecutableAndModules ==> crate::state::image_map(
                crate::boot::spec_pages_for(entries[i].length),
            ).fits(),
        crate::state::populated(g0, g1, entries, modules, f, r),
    ensures
        g1@.inv(),
{
    let (ga, rr) = choose|ga: Graph, rr: Result<Ref<Root>, GraphError>| #[trigger]
        crate::state::root_made(g0, ga, rr) && ga.wf() && match rr {
            Err(e) => r == Err::<BootNodes, GraphError>(e) && g1 == ga,
            Ok(root) => crate::state::nodes_made(ga, g1, root.id(), entries, modules, f, r),
        };
    if let Ok(x) = rr {
        let root = x.id();
        assert(ga@.nodes.contains_key(root));
        assert(ga.spec_live(root));
        assert(ga@.node_ok(root));
        crate::laws_make::creating_the_root_keeps_invariants(g0@, root);
        making_the_nodes_keeps_invariants(ga, g1, root, entries, modules, f, r);
    }
}

} // verus!

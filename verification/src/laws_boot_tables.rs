//! Where it starts: a graph fresh from boot has its page tables in order, if
//! those that the machine came up with are page tables.

use vstd::prelude::*;

use crate::body::{Body, MemFlags, Root};
use crate::boot::{Asked, Facts, Module};
use crate::edge::{EdgeAttr, MapsAttr};
use crate::frames::{FrameAllocator, Region, RegionKind};
use crate::graph::{Graph, GraphError, Ref};
use crate::id::{EdgeId, EdgeKind, NodeId, NodeKind};
use crate::reap::Reclaim;
use crate::state::BootNodes;
use crate::view::GraphView;

verus! {

/// A body that gives nothing back when it goes, and is no space.
pub open spec fn keeps_to_itself(b: Body) -> bool {
    match b {
        Body::AddressSpace(_) => false,
        Body::MemoryObject(_) => crate::reap::reclaim_of(b) matches Reclaim::Frames {
            phys,
            pages,
            flags,
        } && !crate::reaper::returnable(flags),
        _ => true,
    }
}

impl GraphView {
    /// No memory object gives anything back, and there is no space but, if
    /// `made`, one of the kernel's over this root.
    #[verifier::opaque]
    pub open spec fn booting(self, made: bool, pml4: u64) -> bool {
        &&& forall|m: NodeId| #[trigger] self.is_object(m) ==> keeps_to_itself(self.nodes[m].body)
        &&& forall|s: NodeId| #[trigger]
            self.is_space(s) ==> made && self.space(s).pml4_phys == pml4 && self.space(s).is_kernel
                != 0
        &&& forall|s: NodeId, t: NodeId| #[trigger]
            self.is_space(s) && #[trigger] self.is_space(t) ==> s == t
    }
}

/// Pinned memory and device memory stay where they are.
proof fn memory_keeps_to_itself(base: u64, pages: u32, flags: MemFlags)
    requires
        flags == MemFlags(1) || flags == MemFlags(2),
    ensures
        keeps_to_itself(crate::boot::memory(base, pages, flags)),
{
    assert(1u32 & 1 == 1 && 2u32 & 2 == 2 && 1u32 & 4 != 4 && 2u32 & 4 != 4) by (bit_vector);
}

proof fn regions_keep_to_themselves(
    entries: Seq<Region>,
    n: int,
    kind: RegionKind,
    flags: MemFlags,
    name: Seq<char>,
)
    requires
        flags == MemFlags(1) || flags == MemFlags(2),
    ensures
        forall|i: int|
            0 <= i < crate::boot::region_items(entries, n, kind, flags, name).len()
                ==> keeps_to_itself(
                (#[trigger] crate::boot::region_items(entries, n, kind, flags, name)[i]).body,
            ),
    decreases n,
{
    if n > 0 {
        regions_keep_to_themselves(entries, n - 1, kind, flags, name);
        memory_keeps_to_itself(
            entries[n - 1].base,
            crate::boot::pages_for(entries[n - 1].length),
            flags,
        );
        let before = crate::boot::region_items(entries, n - 1, kind, flags, name);
        let items = crate::boot::region_items(entries, n, kind, flags, name);
        assert forall|i: int| 0 <= i < items.len() implies keeps_to_itself(
            (#[trigger] items[i]).body,
        ) by {
            if i < before.len() {
                assert(items[i] == before[i]);
            }
        }
    }
}

proof fn modules_keep_to_themselves(modules: Seq<Module<'_>>, n: int, hhdm: u64)
    ensures
        forall|i: int|
            0 <= i < crate::boot::module_items(modules, n, hhdm).len() ==> keeps_to_itself(
                (#[trigger] crate::boot::module_items(modules, n, hhdm)[i]).body,
            ),
    decreases n,
{
    if n > 0 {
        modules_keep_to_themselves(modules, n - 1, hhdm);
        memory_keeps_to_itself(
            crate::boot::module_phys(modules[n - 1].addr, hhdm),
            crate::boot::pages_for(modules[n - 1].size),
            MemFlags(2),
        );
        let before = crate::boot::module_items(modules, n - 1, hhdm);
        let items = crate::boot::module_items(modules, n, hhdm);
        assert forall|i: int| 0 <= i < items.len() implies keeps_to_itself(
            (#[trigger] items[i]).body,
        ) by {
            if i < before.len() {
                assert(items[i] == before[i]);
            }
        }
    }
}

/// Everything the script asks for keeps to itself, but for the kernel's space,
/// which comes last.
proof fn script_keeps_to_itself(entries: Seq<Region>, modules: Seq<Module<'_>>, f: Facts)
    ensures
        ({
            let script = crate::boot::boot_script(entries, modules, f);
            &&& script.len() > 0
            &&& script.last().body == crate::boot::kernel_space(f)
            &&& forall|i: int|
                0 <= i < script.len() - 1 ==> keeps_to_itself((#[trigger] script[i]).body)
        }),
{
    let n = entries.len() as int;
    let a = crate::boot::one(Body::Cpu(<crate::body::Cpu as crate::body::NodeBody>::spec_zero()), "cpu0"@);
    let b = crate::boot::region_items(
        entries,
        n,
        RegionKind::ExecutableAndModules,
        MemFlags(2),
        "kernel-image"@,
    );
    let c = crate::boot::region_items(
        entries,
        n,
        RegionKind::Framebuffer,
        MemFlags(1),
        "framebuffer"@,
    );
    let d = crate::boot::one(
        crate::boot::memory(f.bitmap.phys, f.bitmap.pages, MemFlags(2)),
        "frame-bitmap"@,
    );
    let e = crate::boot::module_items(modules, modules.len() as int, f.hhdm);
    let g = crate::boot::one(
        crate::boot::memory(0, f.total_frames as u32, MemFlags(2)),
        "physical-memory"@,
    );
    let h = crate::boot::one(crate::boot::kernel_space(f), "kernel-space"@);
    let script = crate::boot::boot_script(entries, modules, f);
    regions_keep_to_themselves(
        entries,
        n,
        RegionKind::ExecutableAndModules,
        MemFlags(2),
        "kernel-image"@,
    );
    regions_keep_to_themselves(entries, n, RegionKind::Framebuffer, MemFlags(1), "framebuffer"@);
    modules_keep_to_themselves(modules, modules.len() as int, f.hhdm);
    memory_keeps_to_itself(f.bitmap.phys, f.bitmap.pages, MemFlags(2));
    memory_keeps_to_itself(0, f.total_frames as u32, MemFlags(2));
    assert(script == a + b + c + d + e + g + h);
    let n1 = a.len() as int;
    let n2 = n1 + b.len();
    let n3 = n2 + c.len();
    let n4 = n3 + d.len();
    let n5 = n4 + e.len();
    let n6 = n5 + g.len();
    assert forall|i: int| 0 <= i < script.len() - 1 implies keeps_to_itself(
        (#[trigger] script[i]).body,
    ) by {
        if i < n1 {
            assert(script[i] == a[i]);
        } else if i < n2 {
            assert(script[i] == b[i - n1]);
        } else if i < n3 {
            assert(script[i] == c[i - n2]);
        } else if i < n4 {
            assert(script[i] == d[i - n3]);
        } else if i < n5 {
            assert(script[i] == e[i - n4]);
        } else {
            assert(script[i] == g[i - n5]);
        }
    }
    assert(script.last() == h[0]);
}

/// Carrying out one item of the script.
#[verifier::rlimit(40)]
proof fn making_an_item(
    g0: Graph,
    g1: Graph,
    root: NodeId,
    a: Asked,
    r: Result<NodeId, GraphError>,
    made: bool,
    pml4: u64,
)
    requires
        g0.wf(),
        g0@.booting(made, pml4),
        crate::state::item_made(g0, g1, root, a, r),
    ensures
        keeps_to_itself(a.body) ==> g1@.booting(made, pml4),
        a.body is AddressSpace && a.body->AddressSpace_0.pml4_phys == pml4
            && a.body->AddressSpace_0.is_kernel != 0 && !made ==> g1@.booting(true, pml4),
{
    reveal(GraphView::booting);
    if g0.create_refusal(root, a.body.kind()) is None {
        let id = g0.next_node(a.body.kind());
        let ga = choose|ga: Graph| #[trigger]
            crate::state::node_made(g0, ga, root, a.body) && crate::state::name_given(
                ga,
                g1,
                root,
                id,
                a.name,
                a.strict,
                r,
            );
        crate::laws_history::next_node_is_unused(g0, a.body.kind());
        assert forall|x: NodeId| #[trigger] g1@.nodes.contains_key(x) implies (x == id
            || g0@.nodes.contains_key(x)) && (x != id ==> g1@.nodes[x].body == g0@.nodes[x].body)
            && (x == id ==> g1@.nodes[x].body == a.body) by {}
        assert forall|m: NodeId| #[trigger] g1@.is_object(m) implies (m == id || g0@.is_object(m))
            && g1@.nodes.contains_key(m) by {}
        assert forall|s: NodeId| #[trigger] g1@.is_space(s) implies (s == id || g0@.is_space(s))
            && g1@.nodes.contains_key(s) by {}
    }
}

/// Running the script.
proof fn running_the_script(
    trace: Seq<Graph>,
    ids: Seq<NodeId>,
    g0: Graph,
    g1: Graph,
    root: NodeId,
    entries: Seq<Region>,
    modules: Seq<Module<'_>>,
    f: Facts,
    r: Result<(), GraphError>,
    n: int,
)
    requires
        g0@.booting(false, f.active_pml4),
        r is Ok,
        crate::state::script_steps(
            trace,
            ids,
            g0,
            g1,
            root,
            crate::boot::boot_script(entries, modules, f),
            r,
        ),
        0 <= n < trace.len(),
    ensures
        trace[n]@.booting(n == trace.len() - 1, f.active_pml4),
    decreases n,
{
    let items = crate::boot::boot_script(entries, modules, f);
    script_keeps_to_itself(entries, modules, f);
    if n > 0 {
        running_the_script(
            trace,
            ids,
            g0,
            g1,
            root,
            entries,
            modules,
            f,
            r,
            n - 1,
        );
        assert(trace[n - 1].wf());
        let id = ids[n - 1];
        assert(crate::state::item_made(
            trace[n - 1],
            trace[n - 1 + 1],
            root,
            items[n - 1],
            Ok::<NodeId, GraphError>(id),
        ));
        making_an_item(
            trace[n - 1],
            trace[n],
            root,
            items[n - 1],
            Ok::<NodeId, GraphError>(id),
            false,
            f.active_pml4,
        );
    }
}

/// Recording one of the kernel's mappings.
#[verifier::rlimit(40)]
proof fn recording_a_mapping(
    g0: Graph,
    g1: Graph,
    s: NodeId,
    m: NodeId,
    attr: MapsAttr,
    r: Result<EdgeId, GraphError>,
    pml4: u64,
)
    requires
        g0.wf(),
        g0@.booting(true, pml4),
        s.kind() == Some(NodeKind::AddressSpace),
        m.kind() == Some(NodeKind::MemoryObject),
        crate::state::map_recorded(g0, g1, s, m, attr, r),
    ensures
        g1@.booting(true, pml4),
{
    reveal(GraphView::booting);
    if g0.map_refusal(s, m, attr) is None {
        let v = g0@;
        let w = g1@;
        let e = g0.next_edge();
        crate::laws_ipc::next_edge_is_unused(g0);
        assert(v.nodes.contains_key(s) && v.nodes.contains_key(m));
        assert(v.node_ok(s) && v.node_ok(m));
        assert(v.is_space(s) && v.is_object(m));
        crate::laws_paging::mapped_mappings(v, s, m, attr, e);
        assert forall|x: NodeId| #[trigger] w.is_object(x) implies keeps_to_itself(
            w.nodes[x].body,
        ) by {
            assert(v.is_object(x) && w.holding(x) == v.holding(x));
            assert(w.nodes[x].body is MemoryObject);
        }
        assert forall|x: NodeId| #[trigger] w.is_space(x) implies w.space(x).pml4_phys == pml4
            && w.space(x).is_kernel != 0 by {
            assert(v.is_space(x));
            assert(x == s);
        }
        assert forall|x: NodeId, y: NodeId| #[trigger]
            w.is_space(x) && #[trigger] w.is_space(y) implies x == y by {
            assert(v.is_space(x) && v.is_space(y));
        }
    }
}

/// The console, and the frame counts.
proof fn making_the_console(
    gd: Graph,
    g1: Graph,
    root: NodeId,
    entries: Seq<Region>,
    f: Facts,
    ids: Seq<NodeId>,
    r: Result<BootNodes, GraphError>,
)
    requires
        gd.wf(),
        gd@.booting(true, f.active_pml4),
        root.kind() == Some(NodeKind::Root),
        crate::state::console_made(gd, g1, root, entries, f, ids, r),
    ensures
        g1@.booting(true, f.active_pml4),
{
    reveal(GraphView::booting);
    let (ge, rc) = choose|ge: Graph, rc: Result<NodeId, GraphError>| #[trigger]
        crate::state::item_made(gd, ge, root, crate::state::console_asked(f), rc) && ge.wf()
            && match rc {
            Err(e) => r == Err::<BootNodes, GraphError>(e) && g1 == ge,
            Ok(dev) => r == Ok::<BootNodes, GraphError>(
                crate::state::boot_nodes(entries, ids, root, dev),
            ) && g1@ == crate::state::counted(ge@, root, f.total_frames, f.free_frames),
        };
    making_an_item(gd, ge, root, crate::state::console_asked(f), rc, true, f.active_pml4);
    if rc is Ok {
        let v = ge@;
        let w = g1@;
        assert forall|x: NodeId| #[trigger] w.is_object(x) implies v.is_object(x)
            && w.nodes[x].body == v.nodes[x].body by {}
        assert forall|x: NodeId| #[trigger] w.is_space(x) implies v.is_space(x)
            && w.nodes[x].body == v.nodes[x].body by {}
        assert forall|x: NodeId, y: NodeId| #[trigger]
            w.is_space(x) && #[trigger] w.is_space(y) implies x == y by {
            assert(v.is_space(x) && v.is_space(y));
        }
    }
}

/// The ids that boot looks up are of the kinds that they should be.
pub open spec fn kinds_fit(b: BootNodes) -> bool {
    &&& b.kernel_space.kind() == Some(NodeKind::AddressSpace)
    &&& b.phys_memory.kind() == Some(NodeKind::MemoryObject)
    &&& b.kernel_image != NodeId(0) ==> b.kernel_image.kind() == Some(NodeKind::MemoryObject)
}

/// The nodes of the script, and the rest.
proof fn making_the_nodes(
    ga: Graph,
    g1: Graph,
    root: NodeId,
    entries: Seq<Region>,
    modules: Seq<Module<'_>>,
    f: Facts,
    r: Result<BootNodes, GraphError>,
)
    requires
        ga.wf(),
        ga@.booting(false, f.active_pml4),
        root.kind() == Some(NodeKind::Root),
        crate::state::nodes_made(ga, g1, root, entries, modules, f, r),
        r is Ok,
        forall|i: int|
            0 <= i < entries.len() && (#[trigger] entries[i]).kind
                == crate::frames::RegionKind::ExecutableAndModules ==> crate::state::image_map(
                crate::boot::spec_pages_for(entries[i].length),
            ).fits(),
    ensures
        g1@.booting(true, f.active_pml4),
{
    let script = crate::boot::boot_script(entries, modules, f);
    let (gb, ids, rs) = choose|gb: Graph, ids: Seq<NodeId>, rs: Result<(), GraphError>| #[trigger]
        crate::state::script_run(ids, ga, gb, root, script, rs) && match rs {
            Err(e) => r == Err::<BootNodes, GraphError>(e) && g1 == gb,
            Ok(_) => crate::state::memory_mapped(gb, g1, root, entries, f, ids, r),
        };
    the_script_ran(ids, ga, gb, root, entries, modules, f, rs);
    mapping_the_kernel(gb, g1, root, entries, f, ids, r);
}

/// The script leaves one space, and ids of the kinds that boot looks up.
proof fn the_script_ran(
    ids: Seq<NodeId>,
    ga: Graph,
    gb: Graph,
    root: NodeId,
    entries: Seq<Region>,
    modules: Seq<Module<'_>>,
    f: Facts,
    rs: Result<(), GraphError>,
)
    requires
        ga@.booting(false, f.active_pml4),
        crate::state::script_run(
            ids,
            ga,
            gb,
            root,
            crate::boot::boot_script(entries, modules, f),
            rs,
        ),
        rs is Ok,
        forall|i: int|
            0 <= i < entries.len() && (#[trigger] entries[i]).kind
                == crate::frames::RegionKind::ExecutableAndModules ==> crate::state::image_map(
                crate::boot::spec_pages_for(entries[i].length),
            ).fits(),
    ensures
        gb.wf(),
        gb@.booting(true, f.active_pml4),
        kinds_fit(crate::state::boot_nodes(entries, ids, root, NodeId(0))),
{
    let script = crate::boot::boot_script(entries, modules, f);
    let trace = choose|trace: Seq<Graph>| #[trigger]
        crate::state::script_steps(trace, ids, ga, gb, root, script, rs);
    running_the_script(
        trace,
        ids,
        ga,
        gb,
        root,
        entries,
        modules,
        f,
        rs,
        trace.len() - 1,
    );
    assert(trace[trace.len() - 1].wf());
    crate::state::boot_located(gb@, entries, modules, f, ids, root);
}

/// A graph fresh from boot has one space, the kernel's, and no memory that
/// ever goes back to the pool.
#[verifier::rlimit(40)]
pub proof fn booting_makes_one_space(
    g0: Graph,
    g1: Graph,
    entries: Seq<Region>,
    modules: Seq<Module<'_>>,
    f: Facts,
    r: Result<BootNodes, GraphError>,
)
    requires
        g0.wf(),
        g0@ == Graph::nothing(),
        crate::state::populated(g0, g1, entries, modules, f, r),
        r is Ok,
        forall|i: int|
            0 <= i < entries.len() && (#[trigger] entries[i]).kind
                == crate::frames::RegionKind::ExecutableAndModules ==> crate::state::image_map(
                crate::boot::spec_pages_for(entries[i].length),
            ).fits(),
    ensures
        g1@.booting(true, f.active_pml4),
{
    let (ga, rr) = choose|ga: Graph, rr: Result<Ref<Root>, GraphError>| #[trigger]
        crate::state::root_made(g0, ga, rr) && ga.wf() && match rr {
            Err(e) => r == Err::<BootNodes, GraphError>(e) && g1 == ga,
            Ok(root) => crate::state::nodes_made(ga, g1, root.id(), entries, modules, f, r),
        };
    let root = rr->Ok_0.id();
    a_bare_root(g0, ga, rr, f.active_pml4);
    making_the_nodes(ga, g1, root, entries, modules, f, r);
}

/// With nothing but a root there is nothing to map.
proof fn a_bare_root(g0: Graph, ga: Graph, rr: Result<Ref<Root>, GraphError>, pml4: u64)
    requires
        g0@ == Graph::nothing(),
        ga.wf(),
        crate::state::root_made(g0, ga, rr),
        rr is Ok,
    ensures
        ga@.booting(false, pml4),
        rr->Ok_0.id().kind() == Some(NodeKind::Root),
{
    reveal(GraphView::booting);
    let root = rr->Ok_0.id();
    assert(ga@.nodes.contains_key(root));
    assert(ga@.node_ok(root));
    assert forall|x: NodeId| !#[trigger] ga@.is_object(x) by {
        if ga@.is_object(x) {
            assert(ga@.nodes.contains_key(x));
            assert(x == root);
        }
    }
    assert forall|x: NodeId| !#[trigger] ga@.is_space(x) by {
        if ga@.is_space(x) {
            assert(ga@.nodes.contains_key(x));
            assert(x == root);
        }
    }
}

/// The kernel's two mappings, and the rest.
#[verifier::rlimit(40)]
proof fn mapping_the_kernel(
    gb: Graph,
    g1: Graph,
    root: NodeId,
    entries: Seq<Region>,
    f: Facts,
    ids: Seq<NodeId>,
    r: Result<BootNodes, GraphError>,
)
    requires
        gb.wf(),
        gb@.booting(true, f.active_pml4),
        root.kind() == Some(NodeKind::Root),
        r is Ok,
        kinds_fit(crate::state::boot_nodes(entries, ids, root, NodeId(0))),
        crate::state::memory_mapped(gb, g1, root, entries, f, ids, r),
    ensures
        g1@.booting(true, f.active_pml4),
{
    let b = crate::state::boot_nodes(entries, ids, root, NodeId(0));
    let all = crate::state::direct_map(f);
    let (gc, rm) = choose|gc: Graph, rm: Result<EdgeId, GraphError>| #[trigger]
        crate::state::map_recorded(gb, gc, b.kernel_space, b.phys_memory, all, rm) && gc.wf()
            && match rm {
            Err(e) => r == Err::<BootNodes, GraphError>(e) && g1 == gc,
            Ok(_) => crate::state::image_mapped(gc, g1, root, entries, f, ids, r),
        };
    recording_a_mapping(gb, gc, b.kernel_space, b.phys_memory, all, rm, f.active_pml4);
    if b.kernel_image == NodeId(0) {
        making_the_console(gc, g1, root, entries, f, ids, r);
    } else {
        let attr = crate::state::image_map(gc@.memobj(b.kernel_image).pages);
        let (gd, ri) = choose|gd: Graph, ri: Result<EdgeId, GraphError>| #[trigger]
            crate::state::map_recorded(gc, gd, b.kernel_space, b.kernel_image, attr, ri) && gd.wf()
                && match ri {
                Err(e) => r == Err::<BootNodes, GraphError>(e) && g1 == gd,
                Ok(_) => crate::state::console_made(gd, g1, root, entries, f, ids, r),
            };
        recording_a_mapping(gc, gd, b.kernel_space, b.kernel_image, attr, ri, f.active_pml4);
        making_the_console(gd, g1, root, entries, f, ids, r);
    }
}

/// A graph fresh from boot has its page tables in order, if the ones in use
/// are page tables and the allocator hands none of them out.
pub proof fn booting_leaves_tables_in_order(
    g0: Graph,
    g1: Graph,
    entries: Seq<Region>,
    modules: Seq<Module<'_>>,
    f: Facts,
    r: Result<BootNodes, GraphError>,
    mem: Seq<u8>,
    fa: FrameAllocator<'_>,
)
    requires
        g0.wf(),
        g0@ == Graph::nothing(),
        crate::state::populated(g0, g1, entries, modules, f, r),
        r is Ok,
        forall|i: int|
            0 <= i < entries.len() && (#[trigger] entries[i]).kind
                == crate::frames::RegionKind::ExecutableAndModules ==> crate::state::image_map(
                crate::boot::spec_pages_for(entries[i].length),
            ).fits(),
        crate::paging::ready(fa, mem, crate::paging::root_of(f.active_pml4)),
    ensures
        g1@.paging_ok(mem, fa),
{
    booting_makes_one_space(g0, g1, entries, modules, f, r);
    one_space_is_in_order(g1@, f.active_pml4, mem, fa);
}

/// One space over page tables, and nothing to give back, is in order.
proof fn one_space_is_in_order(v: GraphView, pml4: u64, mem: Seq<u8>, fa: FrameAllocator<'_>)
    requires
        v.booting(true, pml4),
        crate::paging::ready(fa, mem, crate::paging::root_of(pml4)),
    ensures
        v.paging_ok(mem, fa),
{
    reveal(GraphView::booting);
    assert forall|m: NodeId, x: int| v.is_object(m) implies !(#[trigger] v.holds_frame(
        mem,
        m,
        x,
    )) by {
        assert(keeps_to_itself(v.nodes[m].body));
    }
    assert forall|m: NodeId| #[trigger] v.is_object(m) implies crate::reaper::reclaimable(
        v.holding(m),
        mem,
    ) && crate::laws_paging::table_inside(v.holding(m)) by {
        assert(keeps_to_itself(v.nodes[m].body));
    }
    assert(v.objects_sound(mem, fa));
    assert forall|s: NodeId| #[trigger] v.is_space(s) implies crate::paging::ready(
        fa,
        mem,
        crate::vm::root_in(v, s),
    ) && !v.user_space(s) by {}
    assert(v.spaces_sound(mem, fa));
    assert forall|s: NodeId| !#[trigger] v.user_space(s) by {
        if v.user_space(s) {
            assert(v.is_space(s));
        }
    }
}

} // verus!

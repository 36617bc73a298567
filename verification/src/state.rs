//! The kernel's state at boot, and the checks that are run against it.

use vstd::prelude::*;

use crate::body::{
    AddressSpace, Body, Device, DeviceClass, MemFlags, MemoryObject, Nameable, NodeBody, Root,
    RootOwnable,
};
use crate::boot::{script, BootBody, BootItem, BootName, Facts, Module};
use crate::checker::{Checker, Violation};
use crate::edge::{MapFlags, MapsAttr, Prot};
use crate::frames::{FrameAllocator, Region};
use crate::graph::{Graph, GraphError, Ref};
use crate::id::{EdgeId, EdgeKind, NodeId, NodeKind};
use crate::limits::MAX_MAPPINGS_PER_SPACE;
use crate::store::Store;
use crate::vm_check::{check_page_tables, I5};

verus! {

/// Where the linker script puts the kernel image.
pub const KERNEL_IMAGE_BASE: u64 = 0xffff_ffff_8000_0000;

// ------------------------------------------------------------------- items ---

/// Why a name is refused, if it is.
pub open spec fn name_refusal(g: Graph, root: NodeId, id: NodeId, name: Seq<char>) -> Option<
    GraphError,
> {
    if !crate::names::name_fits(name) {
        Some(GraphError::NameTooLong)
    } else {
        g.link_refusal(root, EdgeKind::Named, id)
    }
}

/// A node was made under the root.
pub open spec fn node_made(g0: Graph, ga: Graph, root: NodeId, body: Body) -> bool {
    &&& ga.wf()
    &&& !g0@.live(g0.next_node(body.kind()))
    &&& ga@ == g0@.with_node(g0.next_node(body.kind()), body).link(
        root,
        EdgeKind::Owns,
        g0.next_node(body.kind()),
        crate::edge::zeros(24),
        g0.next_edge().idx(),
        g0.next_edge().generation(),
    )
}

/// A node got its name, or may go without.
pub open spec fn name_given(
    ga: Graph,
    g1: Graph,
    root: NodeId,
    id: NodeId,
    name: Option<Seq<char>>,
    strict: bool,
    r: Result<NodeId, GraphError>,
) -> bool {
    match name {
        None => r == Ok::<NodeId, GraphError>(id) && g1 == ga,
        Some(n) => match name_refusal(ga, root, id, n) {
            Some(e) => g1 == ga && r == (if strict {
                Err::<NodeId, GraphError>(e)
            } else {
                Ok::<NodeId, GraphError>(id)
            }),
            None => r == Ok::<NodeId, GraphError>(id) && g1@ == ga@.link(
                root,
                EdgeKind::Named,
                id,
                crate::names::name_data(n),
                ga.next_edge().idx(),
                ga.next_edge().generation(),
            ),
        },
    }
}

/// One item of the script was carried out.
pub open spec fn item_made(
    g0: Graph,
    g1: Graph,
    root: NodeId,
    a: crate::boot::Asked,
    r: Result<NodeId, GraphError>,
) -> bool {
    match g0.create_refusal(root, a.body.kind()) {
        Some(e) => r == Err::<NodeId, GraphError>(e) && g1 == g0,
        None => exists|ga: Graph| #[trigger]
            node_made(g0, ga, root, a.body) && name_given(
                ga,
                g1,
                root,
                g0.next_node(a.body.kind()),
                a.name,
                a.strict,
                r,
            ),
    }
}

/// Every node is still there, with the same body.
pub open spec fn kept(v0: crate::view::GraphView, v1: crate::view::GraphView) -> bool {
    forall|x: NodeId| #[trigger]
        v0.nodes.contains_key(x) ==> v1.nodes.contains_key(x) && v1.nodes[x].body
            == v0.nodes[x].body
}

fn make_one<'a, B: RootOwnable + Nameable + Store>(
    g: &mut Graph,
    root: Ref<Root>,
    body: B,
    name: BootName<'a>,
) -> (r: Result<NodeId, GraphError>)
    requires
        old(g).wf(),
        old(g).seq + 2 <= u64::MAX,
        body.erase().bounded(),
    ensures
        final(g).wf(),
        item_made(
            *old(g),
            *final(g),
            root.id(),
            (crate::boot::Asked {
                body: body.erase(),
                name: name.text(),
                strict: name is Must,
            }),
            r,
        ),
        final(g).seq <= old(g).seq + 2,
        r matches Ok(id) ==> final(g)@.live(id) && final(g)@.nodes[id].body == body.erase(),
        kept(old(g)@, final(g)@),
        final(g)@.root_id == old(g)@.root_id,
        final(g)@.since(old(g)@),
{
    let ghost g0 = *g;
    proof {
        body.erase_kind();
    }
    let x = match g.create_under_root(root, body) {
        Ok(x) => x,
        Err(e) => return Err(e),
    };
    let ghost ga = *g;
    assert(node_made(g0, ga, root.id(), body.erase()));
    match name {
        BootName::Unnamed => {},
        BootName::Must(n) => {
            match g.link_named(root, x, n) {
                Ok(_) => {},
                Err(e) => return Err(e),
            }
        },
        BootName::May(n) => {
            let _ = g.link_named(root, x, n);
        },
    }
    Ok(x.id())
}

/// Carry out one item of the script.
fn make_item<'a>(g: &mut Graph, root: Ref<Root>, item: &BootItem<'a>) -> (r: Result<
    NodeId,
    GraphError,
>)
    requires
        old(g).wf(),
        old(g).seq + 2 <= u64::MAX,
        item.body.erase().bounded(),
    ensures
        final(g).wf(),
        item_made(*old(g), *final(g), root.id(), item.asked(), r),
        final(g).seq <= old(g).seq + 2,
        r matches Ok(id) ==> final(g)@.live(id) && final(g)@.nodes[id].body == item.body.erase(),
        kept(old(g)@, final(g)@),
        final(g)@.root_id == old(g)@.root_id,
        final(g)@.since(old(g)@),
{
    match item.body {
        BootBody::Cpu(b) => make_one(g, root, b, item.name),
        BootBody::Memory(b) => make_one(g, root, b, item.name),
        BootBody::Space(b) => make_one(g, root, b, item.name),
        BootBody::Device(b) => make_one(g, root, b, item.name),
    }
}

/// The graphs that running a script goes through, and the ids it made.
pub open spec fn script_steps(
    trace: Seq<Graph>,
    ids: Seq<NodeId>,
    g0: Graph,
    g1: Graph,
    root: NodeId,
    items: Seq<crate::boot::Asked>,
    r: Result<(), GraphError>,
) -> bool {
    let k = ids.len() as int;
    &&& trace.len() > k
    &&& trace[0] == g0
    &&& trace.last() == g1
    &&& k <= items.len()
    &&& forall|i: int| 0 <= i < trace.len() ==> (#[trigger] trace[i]).wf()
    &&& forall|i: int|
        0 <= i < k ==> g1@.live(#[trigger] ids[i]) && g1@.nodes[ids[i]].body == items[i].body
    &&& forall|i: int|
        0 <= i < k ==> item_made(
            trace[i],
            trace[i + 1],
            root,
            items[i],
            Ok::<NodeId, GraphError>(#[trigger] ids[i]),
        )
    &&& match r {
        Ok(_) => k == items.len() && trace.len() == k + 1,
        Err(e) => k < items.len() && trace.len() == k + 2 && item_made(
            trace[k],
            trace[k + 1],
            root,
            items[k],
            Err::<NodeId, GraphError>(e),
        ),
    }
}

pub open spec fn script_run(
    ids: Seq<NodeId>,
    g0: Graph,
    g1: Graph,
    root: NodeId,
    items: Seq<crate::boot::Asked>,
    r: Result<(), GraphError>,
) -> bool {
    exists|trace: Seq<Graph>| #[trigger] script_steps(trace, ids, g0, g1, root, items, r)
}

/// Carry out a script, item by item, up to the first refusal.
fn run_script<'a>(g: &mut Graph, root: Ref<Root>, items: &Vec<BootItem<'a>>) -> (r: (
    Vec<NodeId>,
    Result<(), GraphError>,
))
    requires
        old(g).wf(),
        old(g).seq + 2 * items@.len() <= u64::MAX,
        forall|i: int| 0 <= i < items@.len() ==> (#[trigger] items@[i]).body.erase().bounded(),
    ensures
        final(g).wf(),
        script_run(
            r.0@,
            *old(g),
            *final(g),
            root.id(),
            crate::boot::asked_all(items@),
            r.1,
        ),
        final(g).seq <= old(g).seq + 2 * items@.len(),
        r.1 is Ok ==> r.0@.len() == items@.len(),
        forall|i: int|
            0 <= i < r.0@.len() ==> final(g)@.live(#[trigger] r.0@[i]) && final(g)@.nodes[r.0@[i]].body == items@[i].body.erase(),
        kept(old(g)@, final(g)@),
        final(g)@.root_id == old(g)@.root_id,
        final(g)@.since(old(g)@),
{
    let ghost asked = crate::boot::asked_all(items@);
    let ghost mut trace: Seq<Graph> = seq![*g];
    let mut ids: Vec<NodeId> = Vec::new();
    let mut i: usize = 0;
    while i < items.len()
        invariant
            i <= items@.len(),
            asked == crate::boot::asked_all(items@),
            g.wf(),
            g@.since(old(g)@),
            old(g).seq + 2 * items@.len() <= u64::MAX,
            g.seq <= old(g).seq + 2 * i,
            ids@.len() == i,
            trace.len() == i + 1,
            trace[0] == *old(g),
            trace.last() == *g,
            forall|k: int| 0 <= k < trace.len() ==> (#[trigger] trace[k]).wf(),
            forall|i: int| 0 <= i < items@.len() ==> (#[trigger] items@[i]).body.erase().bounded(),
            forall|k: int|
                0 <= k < i ==> item_made(
                    trace[k],
                    trace[k + 1],
                    root.id(),
                    asked[k],
                    Ok::<NodeId, GraphError>(#[trigger] ids@[k]),
                ),
            forall|k: int|
                0 <= k < i ==> g@.live(#[trigger] ids@[k]) && g@.nodes[ids@[k]].body
                    == items@[k].body.erase(),
            kept(old(g)@, g@),
            g@.root_id == old(g)@.root_id,
        decreases items@.len() - i,
    {
        let ghost before = trace;
        let ghost had = ids@;
        let ghost v = g@;
        let item = items[i];
        assert(items@[i as int] == item);
        assert(asked[i as int] == item.asked());
        let made = make_item(g, root, &item);
        proof {
            trace = trace.push(*g);
            assert forall|k: int| 0 <= k < i implies item_made(
                trace[k],
                trace[k + 1],
                root.id(),
                asked[k],
                Ok::<NodeId, GraphError>(#[trigger] ids@[k]),
            ) by {
                assert(trace[k] == before[k] && trace[k + 1] == before[k + 1]);
            }
            assert(trace[i as int] == before.last());
            assert(kept(old(g)@, g@)) by {
                assert(kept(old(g)@, v) && kept(v, g@));
            }
            assert forall|k: int| 0 <= k < i implies g@.live(#[trigger] ids@[k])
                && g@.nodes[ids@[k]].body == items@[k].body.erase() by {
                assert(v.nodes.contains_key(ids@[k]));
            }
        }
        match made {
            Err(e) => {
                let failed: Result<(), GraphError> = Err(e);
                proof {
                    assert(script_steps(
                        trace,
                        ids@,
                        *old(g),
                        *g,
                        root.id(),
                        asked,
                        failed,
                    ));
                    assert(script_run(ids@, *old(g), *g, root.id(), asked, failed));
                }
                return (ids, failed);
            },
            Ok(id) => {
                ids.push(id);
                proof {
                    assert forall|k: int| 0 <= k < i + 1 implies item_made(
                        trace[k],
                        trace[k + 1],
                        root.id(),
                        asked[k],
                        Ok::<NodeId, GraphError>(#[trigger] ids@[k]),
                    ) && g@.live(ids@[k]) && g@.nodes[ids@[k]].body == items@[k].body.erase() by {
                        if k < i {
                            assert(ids@[k] == had[k]);
                        }
                    }
                }
            },
        }
        i = i + 1;
    }
    let done: Result<(), GraphError> = Ok(());
    proof {
        assert(script_steps(trace, ids@, *old(g), *g, root.id(), asked, done));
        assert(script_run(ids@, *old(g), *g, root.id(), asked, done));
    }
    (ids, done)
}

// -------------------------------------------------------------------- boot ---

/// What boot handed to the graph, kept so it can be found again without
/// re-reading the bootloader's structures.
#[derive(Clone, Copy, Debug, PartialEq, Eq, Structural)]
pub struct BootNodes {
    pub root: NodeId,
    pub cpu0: NodeId,
    pub console: NodeId,
    pub framebuffer: NodeId,
    pub bitmap: NodeId,
    pub kernel_image: NodeId,
    pub kernel_space: NodeId,
    pub phys_memory: NodeId,
}

/// How many regions of a kind there are among the first `n`.
pub open spec fn regions_of(entries: Seq<Region>, n: int, kind: crate::frames::RegionKind) -> int
    decreases n,
{
    if n <= 0 {
        0
    } else {
        regions_of(entries, n - 1, kind) + if entries[n - 1].kind == kind {
            1int
        } else {
            0
        }
    }
}

/// Which of the ids the script made is what.
pub open spec fn boot_nodes(
    entries: Seq<Region>,
    ids: Seq<NodeId>,
    root: NodeId,
    console: NodeId,
) -> BootNodes {
    let n = entries.len() as int;
    let images = regions_of(entries, n, crate::frames::RegionKind::ExecutableAndModules);
    let screens = regions_of(entries, n, crate::frames::RegionKind::Framebuffer);
    BootNodes {
        root,
        cpu0: ids[0],
        console,
        framebuffer: if screens > 0 {
            ids[1 + images]
        } else {
            NodeId(0)
        },
        bitmap: ids[1 + images + screens],
        kernel_image: if images > 0 {
            ids[1]
        } else {
            NodeId(0)
        },
        kernel_space: ids[ids.len() - 1],
        phys_memory: ids[ids.len() - 2],
    }
}

/// The direct map of all of memory.
pub open spec fn direct_map(f: Facts) -> MapsAttr {
    MapsAttr {
        vaddr: f.hhdm,
        len_pages: f.total_frames as u32,
        off_pages: 0,
        prot: Prot(3),
        flags: MapFlags(0),
    }
}

/// The mapping of the kernel image.
pub open spec fn image_map(pages: u32) -> MapsAttr {
    MapsAttr {
        vaddr: KERNEL_IMAGE_BASE,
        len_pages: pages,
        off_pages: 0,
        prot: Prot(7),
        flags: MapFlags(0),
    }
}

/// A mapping was recorded, or refused.
pub open spec fn map_recorded(
    g0: Graph,
    g1: Graph,
    s: NodeId,
    m: NodeId,
    attr: MapsAttr,
    r: Result<EdgeId, GraphError>,
) -> bool {
    match g0.map_refusal(s, m, attr) {
        Some(e) => r == Err::<EdgeId, GraphError>(e) && g1 == g0,
        None => r == Ok::<EdgeId, GraphError>(g0.next_edge()) && g1@ == g0@.mapped(
            s,
            m,
            attr,
            g0.next_edge(),
        ),
    }
}

/// The root was made, if it could be.
pub open spec fn root_made(g0: Graph, g1: Graph, r: Result<Ref<Root>, GraphError>) -> bool {
    if !g0@.root_id.is_null() {
        r == Err::<Ref<Root>, GraphError>(GraphError::RootExists) && g1 == g0
    } else if g0@.node_stock[NodeKind::Root].full() {
        r == Err::<Ref<Root>, GraphError>(GraphError::ArenaFull(NodeKind::Root)) && g1 == g0
    } else {
        let id = g0.next_node(NodeKind::Root);
        r matches Ok(x) && x.id() == id && !g0@.live(id) && g1@ == (crate::view::GraphView {
            root_id: id,
            ..g0@.with_node(id, Body::Root(Root::spec_zero())).bumped()
        })
    }
}

/// What boot does to the graph, in order: the root; the nodes of the script;
/// the kernel's two mappings, recorded as edges like any other; the console;
/// and the frame counts, so a dump carries the non-graph register alongside.
/// The first refusal stops it there.
pub open spec fn populated(
    g0: Graph,
    g1: Graph,
    entries: Seq<Region>,
    modules: Seq<Module<'_>>,
    f: Facts,
    r: Result<BootNodes, GraphError>,
) -> bool {
    exists|ga: Graph, rr: Result<Ref<Root>, GraphError>| #[trigger]
        root_made(g0, ga, rr) && ga.wf() && match rr {
            Err(e) => r == Err::<BootNodes, GraphError>(e) && g1 == ga,
            Ok(root) => nodes_made(ga, g1, root.id(), entries, modules, f, r),
        }
}

pub open spec fn nodes_made(
    ga: Graph,
    g1: Graph,
    root: NodeId,
    entries: Seq<Region>,
    modules: Seq<Module<'_>>,
    f: Facts,
    r: Result<BootNodes, GraphError>,
) -> bool {
    exists|gb: Graph, ids: Seq<NodeId>, rs: Result<(), GraphError>| #[trigger]
        script_run(ids, ga, gb, root, crate::boot::boot_script(entries, modules, f), rs)
            && match rs {
            Err(e) => r == Err::<BootNodes, GraphError>(e) && g1 == gb,
            Ok(_) => memory_mapped(gb, g1, root, entries, f, ids, r),
        }
}

pub open spec fn memory_mapped(
    gb: Graph,
    g1: Graph,
    root: NodeId,
    entries: Seq<Region>,
    f: Facts,
    ids: Seq<NodeId>,
    r: Result<BootNodes, GraphError>,
) -> bool {
    let b = boot_nodes(entries, ids, root, NodeId(0));
    exists|gc: Graph, rm: Result<EdgeId, GraphError>| #[trigger]
        map_recorded(gb, gc, b.kernel_space, b.phys_memory, direct_map(f), rm) && gc.wf()
            && match rm {
            Err(e) => r == Err::<BootNodes, GraphError>(e) && g1 == gc,
            Ok(_) => image_mapped(gc, g1, root, entries, f, ids, r),
        }
}

pub open spec fn image_mapped(
    gc: Graph,
    g1: Graph,
    root: NodeId,
    entries: Seq<Region>,
    f: Facts,
    ids: Seq<NodeId>,
    r: Result<BootNodes, GraphError>,
) -> bool {
    let b = boot_nodes(entries, ids, root, NodeId(0));
    if b.kernel_image == NodeId(0) {
        console_made(gc, g1, root, entries, f, ids, r)
    } else {
        exists|gd: Graph, rm: Result<EdgeId, GraphError>| #[trigger]
            map_recorded(
                gc,
                gd,
                b.kernel_space,
                b.kernel_image,
                image_map(gc@.memobj(b.kernel_image).pages),
                rm,
            ) && gd.wf() && match rm {
                Err(e) => r == Err::<BootNodes, GraphError>(e) && g1 == gd,
                Ok(_) => console_made(gd, g1, root, entries, f, ids, r),
            }
    }
}

/// The serial console.
pub open spec fn console_asked(f: Facts) -> crate::boot::Asked {
    crate::boot::Asked {
        body: Body::Device(
            Device { class: DeviceClass::SerialConsole, io_base: f.serial_io_base, irq: 4 },
        ),
        name: Some("console"@),
        strict: true,
    }
}

pub open spec fn console_made(
    gd: Graph,
    g1: Graph,
    root: NodeId,
    entries: Seq<Region>,
    f: Facts,
    ids: Seq<NodeId>,
    r: Result<BootNodes, GraphError>,
) -> bool {
    exists|ge: Graph, rc: Result<NodeId, GraphError>| #[trigger]
        item_made(gd, ge, root, console_asked(f), rc) && ge.wf() && match rc {
            Err(e) => r == Err::<BootNodes, GraphError>(e) && g1 == ge,
            Ok(dev) => r == Ok::<BootNodes, GraphError>(boot_nodes(entries, ids, root, dev))
                && g1@ == counted(ge@, root, f.total_frames, f.free_frames),
        }
}

/// The root knows how many frames there are, and how many are free.
pub open spec fn counted(
    v: crate::view::GraphView,
    root: NodeId,
    total: u64,
    free: u64,
) -> crate::view::GraphView {
    if v.live(root) {
        v.with_body(
            root,
            Body::Root(
                Root {
                    total_frames: total,
                    free_frames: free,
                    ..v.nodes[root].body->Root_0
                },
            ),
        )
    } else {
        v
    }
}

/// Write the frame counts into the root.
fn write_counts(g: &mut Graph, root: Ref<Root>, total: u64, free: u64)
    requires
        old(g).wf(),
    ensures
        final(g).wf(),
        final(g)@ == counted(old(g)@, root.id(), total, free),
        !old(g)@.live(root.id()) ==> *final(g) == *old(g),
        final(g)@.since(old(g)@),
{
    proof {
        if g@.live(root.id()) {
            assert(g@.nodes.contains_key(root.id()));
            assert(g@.node_ok(root.id()));
        }
    }
    let body: Option<Root> = match g.body(root) {
        Some(b) => Some(*b),
        None => None,
    };
    if let Some(b) = body {
        g.write_body(root, Root { total_frames: total, free_frames: free, ..b });
    }
}

fn make_console(
    g: &mut Graph,
    root: Ref<Root>,
    entries: &[Region],
    f: Facts,
    ids: &Vec<NodeId>,
    boot: BootNodes,
) -> (r: Result<BootNodes, GraphError>)
    requires
        old(g).wf(),
        old(g).seq + 2 <= u64::MAX,
        boot == boot_nodes(entries@, ids@, root.id(), NodeId(0)),
    ensures
        final(g).wf(),
        console_made(*old(g), *final(g), root.id(), entries@, f, ids@, r),
        final(g)@.since(old(g)@),
{
    let ghost gd = *g;
    let item = BootItem {
        body: BootBody::Device(
            Device { class: DeviceClass::SerialConsole, io_base: f.serial_io_base, irq: 4 },
        ),
        name: BootName::Must("console"),
    };
    assert(item.asked() == console_asked(f));
    let rc = make_item(g, root, &item);
    let ghost ge = *g;
    assert(item_made(gd, ge, root.id(), console_asked(f), rc));
    let dev: NodeId = match rc {
        Ok(d) => d,
        Err(e) => {
            let r = Err(e);
            assert(console_made(gd, *g, root.id(), entries@, f, ids@, r));
            return r;
        },
    };
    write_counts(g, root, f.total_frames, f.free_frames);
    let r = Ok(BootNodes { console: dev, ..boot });
    assert(console_made(gd, *g, root.id(), entries@, f, ids@, r));
    r
}

fn map_image(
    g: &mut Graph,
    root: Ref<Root>,
    entries: &[Region],
    f: Facts,
    ids: &Vec<NodeId>,
    boot: BootNodes,
    space: Ref<AddressSpace>,
) -> (r: Result<BootNodes, GraphError>)
    requires
        old(g).wf(),
        old(g).seq + 3 <= u64::MAX,
        boot == boot_nodes(entries@, ids@, root.id(), NodeId(0)),
        space.id() == boot.kernel_space,
        boot.kernel_image != NodeId(0) ==> old(g)@.live(boot.kernel_image)
            && boot.kernel_image.kind() == Some(NodeKind::MemoryObject) && image_map(
            old(g)@.memobj(boot.kernel_image).pages,
        ).fits() && old(g)@.memobj(boot.kernel_image).map_count < u32::MAX,
    ensures
        final(g).wf(),
        image_mapped(*old(g), *final(g), root.id(), entries@, f, ids@, r),
        final(g)@.since(old(g)@),
{
    let ghost gc = *g;
    let img = match g.typed::<MemoryObject>(boot.kernel_image) {
        Some(m) => m,
        None => {
            let r = make_console(g, root, entries, f, ids, boot);
            assert(image_mapped(gc, *g, root.id(), entries@, f, ids@, r));
            return r;
        },
    };
    proof {
        assert(g@.nodes.contains_key(boot.kernel_image));
        assert(g@.node_ok(boot.kernel_image));
        crate::id::node_id_parts(NodeId(0));
        assert(boot.kernel_image != NodeId(0)) by {
            if boot.kernel_image == NodeId(0) {
                assert(boot.kernel_image.is_null());
                assert(g@.node_ok(NodeId(0)));
            }
        }
    }
    let pages: u32 = match g.body(img) {
        Some(b) => b.pages,
        None => 0,
    };
    let attr = MapsAttr {
        vaddr: KERNEL_IMAGE_BASE,
        len_pages: pages,
        off_pages: 0,
        prot: Prot(7),
        flags: MapFlags::none(),
    };
    let rm = g.link_maps(space, img, attr);
    let ghost gd = *g;
    assert(map_recorded(gc, gd, boot.kernel_space, boot.kernel_image, attr, rm));
    let r = match rm {
        Err(e) => Err(e),
        Ok(_) => make_console(g, root, entries, f, ids, boot),
    };
    proof {
        assert(attr == image_map(gc@.memobj(boot.kernel_image).pages));
        assert(image_mapped(gc, *g, root.id(), entries@, f, ids@, r));
    }
    r
}

/// The script says where everything is.
pub proof fn script_layout(entries: Seq<Region>, modules: Seq<Module<'_>>, f: Facts)
    ensures
        ({
            let s = crate::boot::boot_script(entries, modules, f);
            let n = entries.len() as int;
            let images = regions_of(entries, n, crate::frames::RegionKind::ExecutableAndModules);
            let screens = regions_of(entries, n, crate::frames::RegionKind::Framebuffer);
            &&& s.len() == 4 + images + screens + modules.len()
            &&& 0 <= images <= n
            &&& 0 <= screens <= n
            &&& s[s.len() - 1].body == crate::boot::kernel_space(f)
            &&& s[s.len() - 2].body == crate::boot::memory(0, f.total_frames as u32, MemFlags(2))
            &&& images > 0 ==> exists|k: int|
                0 <= k < n && (#[trigger] entries[k]).kind
                    == crate::frames::RegionKind::ExecutableAndModules && s[1].body
                    == crate::boot::memory(
                    entries[k].base,
                    crate::boot::pages_for(entries[k].length),
                    MemFlags(2),
                )
            &&& forall|i: int|
                0 <= i < s.len() ==> (#[trigger] s[i]).body.bounded() && s[i].body.fresh()
                    && s[i].body.kind() != NodeKind::Root
        }),
{
    let n = entries.len() as int;
    let a = crate::boot::one(Body::Cpu(crate::body::Cpu::spec_zero()), "cpu0"@);
    let xk = crate::frames::RegionKind::ExecutableAndModules;
    let fk = crate::frames::RegionKind::Framebuffer;
    let b = crate::boot::region_items(entries, n, xk, MemFlags(2), "kernel-image"@);
    let c = crate::boot::region_items(entries, n, fk, MemFlags(1), "framebuffer"@);
    region_items_shape(entries, n, xk, MemFlags(2), "kernel-image"@);
    region_items_shape(entries, n, fk, MemFlags(1), "framebuffer"@);
    let d = crate::boot::one(
        crate::boot::memory(f.bitmap.phys, f.bitmap.pages, MemFlags(2)),
        "frame-bitmap"@,
    );
    let e = crate::boot::module_items(modules, modules.len() as int, f.hhdm);
    module_items_shape(modules, modules.len() as int, f.hhdm);
    let p = crate::boot::one(
        crate::boot::memory(0, f.total_frames as u32, MemFlags(2)),
        "physical-memory"@,
    );
    let q = crate::boot::one(crate::boot::kernel_space(f), "kernel-space"@);
    let s = crate::boot::boot_script(entries, modules, f);
    assert(s == a + b + c + d + e + p + q);
    let l = s.len() as int;
    assert(s[l - 1] == q[0]);
    assert(s[l - 2] == p[0]);
    if b.len() > 0 {
        assert(s[1] == b[0]);
    }
    space_bounded(f);
    assert forall|i: int| 0 <= i < s.len() implies (#[trigger] s[i]).body.bounded()
        && s[i].body.fresh() && s[i].body.kind() != NodeKind::Root by {
        let la = a.len() as int;
        let lb = la + b.len();
        let lc = lb + c.len();
        let ld = lc + d.len();
        let le = ld + e.len();
        let lp = le + p.len();
        if i < la {
            assert(s[i] == a[i]);
        } else if i < lb {
            assert(s[i] == b[i - la]);
        } else if i < lc {
            assert(s[i] == c[i - lb]);
        } else if i < ld {
            assert(s[i] == d[i - lc]);
        } else if i < le {
            assert(s[i] == e[i - ld]);
        } else if i < lp {
            assert(s[i] == p[i - le]);
        } else {
            assert(s[i] == q[i - lp]);
        }
    }
}

proof fn space_bounded(f: Facts)
    ensures
        crate::boot::kernel_space(f).bounded(),
{
    vstd::array::axiom_spec_array_fill_for_copy_type::<u32, MAX_MAPPINGS_PER_SPACE>(0u32);
}

proof fn region_items_shape(
    entries: Seq<Region>,
    n: int,
    kind: crate::frames::RegionKind,
    flags: MemFlags,
    name: Seq<char>,
)
    requires
        0 <= n <= entries.len(),
    ensures
        crate::boot::region_items(entries, n, kind, flags, name).len() == regions_of(
            entries,
            n,
            kind,
        ),
        0 <= regions_of(entries, n, kind) <= n,
        forall|i: int|
            0 <= i < crate::boot::region_items(entries, n, kind, flags, name).len() ==> (
            #[trigger] crate::boot::region_items(
                entries,
                n,
                kind,
                flags,
                name,
            )[i]).body is MemoryObject && crate::boot::region_items(
                entries,
                n,
                kind,
                flags,
                name,
            )[i].body.fresh(),
        crate::boot::region_items(entries, n, kind, flags, name).len() > 0 ==> exists|k: int|
            0 <= k < n && (#[trigger] entries[k]).kind == kind && crate::boot::region_items(
                entries,
                n,
                kind,
                flags,
                name,
            )[0].body == crate::boot::memory(
                entries[k].base,
                crate::boot::pages_for(entries[k].length),
                flags,
            ),
    decreases n,
{
    if n > 0 {
        region_items_shape(entries, n - 1, kind, flags, name);
        let before = crate::boot::region_items(entries, n - 1, kind, flags, name);
        if entries[n - 1].kind == kind && before.len() == 0 {
            assert(entries[n - 1].kind == kind);
        }
    }
}

proof fn module_items_shape(modules: Seq<Module<'_>>, n: int, hhdm: u64)
    requires
        0 <= n <= modules.len(),
    ensures
        crate::boot::module_items(modules, n, hhdm).len() == n,
        forall|i: int|
            0 <= i < n ==> (#[trigger] crate::boot::module_items(
                modules,
                n,
                hhdm,
            )[i]).body is MemoryObject && crate::boot::module_items(modules, n, hhdm)[i].body.fresh(),
    decreases n,
{
    if n > 0 {
        module_items_shape(modules, n - 1, hhdm);
    }
}

/// How many regions of a kind there are.
fn count_regions(entries: &[Region], kind: crate::frames::RegionKind) -> (r: usize)
    ensures
        r == regions_of(entries@, entries@.len() as int, kind),
{
    let mut n: usize = 0;
    let mut i: usize = 0;
    while i < entries.len()
        invariant
            i <= entries@.len(),
            n <= i,
            n == regions_of(entries@, i as int, kind),
        decreases entries@.len() - i,
    {
        if entries[i].kind == kind {
            n = n + 1;
        }
        i = i + 1;
    }
    n
}

/// Find the nodes again among the ids that the script made.
fn locate(entries: &[Region], ids: &Vec<NodeId>, root: NodeId) -> (r: BootNodes)
    requires
        ids@.len() >= 4 + regions_of(
            entries@,
            entries@.len() as int,
            crate::frames::RegionKind::ExecutableAndModules,
        ) + regions_of(
            entries@,
            entries@.len() as int,
            crate::frames::RegionKind::Framebuffer,
        ),
    ensures
        r == boot_nodes(entries@, ids@, root, NodeId(0)),
{
    let images: usize = count_regions(
        entries,
        crate::frames::RegionKind::ExecutableAndModules,
    );
    let screens: usize = count_regions(entries, crate::frames::RegionKind::Framebuffer);
    let n: usize = ids.len();
    let framebuffer: NodeId = if screens > 0 {
        ids[1 + images]
    } else {
        NodeId::null()
    };
    let kernel_image: NodeId = if images > 0 {
        ids[1]
    } else {
        NodeId::null()
    };
    BootNodes {
        root,
        cpu0: ids[0],
        console: NodeId::null(),
        framebuffer,
        bitmap: ids[1 + images + screens],
        kernel_image,
        kernel_space: ids[n - 1],
        phys_memory: ids[n - 2],
    }
}

fn map_memory(
    g: &mut Graph,
    root: Ref<Root>,
    entries: &[Region],
    f: Facts,
    ids: &Vec<NodeId>,
    boot: BootNodes,
    space: Ref<AddressSpace>,
    all: Ref<MemoryObject>,
) -> (r: Result<BootNodes, GraphError>)
    requires
        old(g).wf(),
        old(g).seq + 4 <= u64::MAX,
        boot == boot_nodes(entries@, ids@, root.id(), NodeId(0)),
        space.id() == boot.kernel_space,
        all.id() == boot.phys_memory,
        direct_map(f).fits(),
        old(g)@.live(space.id()),
        old(g)@.live(all.id()),
        old(g)@.memobj(all.id()).map_count == 0,
        boot.kernel_image != NodeId(0) ==> old(g)@.live(boot.kernel_image)
            && boot.kernel_image.kind() == Some(NodeKind::MemoryObject) && image_map(
            old(g)@.memobj(boot.kernel_image).pages,
        ).fits() && old(g)@.memobj(boot.kernel_image).map_count == 0,
    ensures
        final(g).wf(),
        memory_mapped(*old(g), *final(g), root.id(), entries@, f, ids@, r),
        final(g)@.since(old(g)@),
{
    let ghost gb = *g;
    let attr = MapsAttr {
        vaddr: f.hhdm,
        len_pages: #[verifier::truncate]
        (f.total_frames as u32),
        off_pages: 0,
        prot: Prot::rw(),
        flags: MapFlags::none(),
    };
    assert(attr == direct_map(f));
    proof {
        assert(g@.nodes.contains_key(space.id()));
        assert(g@.node_ok(space.id()));
        assert(g@.nodes.contains_key(all.id()));
        assert(g@.node_ok(all.id()));
        if boot.kernel_image != NodeId(0) {
            assert(g@.nodes.contains_key(boot.kernel_image));
            assert(g@.node_ok(boot.kernel_image));
        }
    }
    let rm = g.link_maps(space, all, attr);
    let ghost gc = *g;
    assert(map_recorded(gb, gc, boot.kernel_space, boot.phys_memory, direct_map(f), rm));
    let r = match rm {
        Err(e) => Err(e),
        Ok(_) => map_image(g, root, entries, f, ids, boot, space),
    };
    assert(memory_mapped(gb, *g, root.id(), entries@, f, ids@, r));
    r
}

/// What is known of the nodes once they are made.
pub proof fn boot_located(
    v: crate::view::GraphView,
    entries: Seq<Region>,
    modules: Seq<Module<'_>>,
    f: Facts,
    ids: Seq<NodeId>,
    root: NodeId,
)
    requires
        v.wf(),
        ids.len() == crate::boot::boot_script(entries, modules, f).len(),
        forall|i: int|
            0 <= i < ids.len() ==> v.live(#[trigger] ids[i]) && v.nodes[ids[i]].body
                == crate::boot::boot_script(entries, modules, f)[i].body,
        forall|i: int|
            0 <= i < entries.len() && (#[trigger] entries[i]).kind
                == crate::frames::RegionKind::ExecutableAndModules ==> image_map(
                crate::boot::pages_for(entries[i].length),
            ).fits(),
    ensures
        ({
            let b = boot_nodes(entries, ids, root, NodeId(0));
            &&& v.live(b.kernel_space) && b.kernel_space.kind() == Some(NodeKind::AddressSpace)
            &&& v.live(b.phys_memory) && b.phys_memory.kind() == Some(NodeKind::MemoryObject)
            &&& v.memobj(b.phys_memory).map_count == 0
            &&& b.kernel_image != NodeId(0) ==> v.live(b.kernel_image) && b.kernel_image.kind()
                == Some(NodeKind::MemoryObject) && image_map(v.memobj(b.kernel_image).pages).fits()
                && v.memobj(b.kernel_image).map_count == 0
        }),
{
    script_layout(entries, modules, f);
    let n = ids.len() as int;
    assert(v.live(ids[n - 1]));
    assert(v.nodes.contains_key(ids[n - 1]));
    assert(v.node_ok(ids[n - 1]));
    assert(v.live(ids[n - 2]));
    assert(v.nodes.contains_key(ids[n - 2]));
    assert(v.node_ok(ids[n - 2]));
    let b = boot_nodes(entries, ids, root, NodeId(0));
    if b.kernel_image != NodeId(0) {
        assert(v.live(ids[1]));
        assert(v.nodes.contains_key(ids[1]));
        assert(v.node_ok(ids[1]));
    }
}

/// Make the nodes of the script, and the rest.
#[verifier::spinoff_prover]
#[verifier::rlimit(60)]
fn make_nodes<'a>(
    g: &mut Graph,
    root: Ref<Root>,
    entries: &[Region],
    modules: &Vec<Module<'a>>,
    f: Facts,
) -> (r: Result<BootNodes, GraphError>)
    requires
        old(g).wf(),
        old(g).seq + 2 * (2 * entries@.len() + modules@.len()) + 12 <= u64::MAX,
        direct_map(f).fits(),
        forall|i: int|
            0 <= i < entries@.len() && (#[trigger] entries@[i]).kind
                == crate::frames::RegionKind::ExecutableAndModules ==> image_map(
                crate::boot::pages_for(entries@[i].length),
            ).fits(),
    ensures
        final(g).wf(),
        nodes_made(*old(g), *final(g), root.id(), entries@, modules@, f, r),
        final(g)@.since(old(g)@),
{
    let ghost ga = *g;
    let items = script(entries, modules, f);
    proof {
        script_layout(entries@, modules@, f);
        assert forall|i: int| 0 <= i < items@.len() implies (
        #[trigger] items@[i]).body.erase().bounded() by {
            assert(crate::boot::asked_all(items@)[i].body.bounded());
        }
        assert(items@.len() == crate::boot::boot_script(entries@, modules@, f).len());
    }
    let (ids, rs): (Vec<NodeId>, Result<(), GraphError>) = run_script(g, root, &items);
    let ghost gb = *g;
    assert(script_run(
        ids@,
        ga,
        gb,
        root.id(),
        crate::boot::boot_script(entries@, modules@, f),
        rs,
    ));
    match rs {
        Err(e) => {
            let r = Err(e);
            assert(nodes_made(ga, *g, root.id(), entries@, modules@, f, r));
            return r;
        },
        Ok(_) => {},
    }
    let boot = locate(entries, &ids, root.id());
    proof {
        assert forall|i: int| 0 <= i < ids@.len() implies gb@.live(#[trigger] ids@[i])
            && gb@.nodes[ids@[i]].body == crate::boot::boot_script(entries@, modules@, f)[i].body by {
            assert(crate::boot::asked_all(items@)[i].body == items@[i].body.erase());
        }
        boot_located(gb@, entries@, modules@, f, ids@, root.id());
    }
    let space = match g.typed::<AddressSpace>(boot.kernel_space) {
        Some(s) => s,
        None => return Err(GraphError::StaleNode(boot.kernel_space)),
    };
    let all = match g.typed::<MemoryObject>(boot.phys_memory) {
        Some(m) => m,
        None => return Err(GraphError::StaleNode(boot.phys_memory)),
    };
    let r = map_memory(g, root, entries, f, &ids, boot, space, all);
    assert(nodes_made(ga, *g, root.id(), entries@, modules@, f, r));
    r
}

/// Create the boot graph: a root, a cpu, and a memory object for every region
/// of physical memory that is spoken for. Everything the frame allocator has
/// handed out that outlives the call is described by a node.
pub fn populate<'a>(
    g: &mut Graph,
    entries: &[Region],
    modules: &Vec<Module<'a>>,
    f: Facts,
) -> (r: Result<BootNodes, GraphError>)
    requires
        old(g).wf(),
        old(g).seq + 2 * (2 * entries@.len() + modules@.len()) + 13 <= u64::MAX,
        direct_map(f).fits(),
        forall|i: int|
            0 <= i < entries@.len() && (#[trigger] entries@[i]).kind
                == crate::frames::RegionKind::ExecutableAndModules ==> image_map(
                crate::boot::pages_for(entries@[i].length),
            ).fits(),
    ensures
        final(g).wf(),
        populated(*old(g), *final(g), entries@, modules@, f, r),
        final(g)@.since(old(g)@),
{
    let ghost g0 = *g;
    let rr = g.create_root();
    let ghost ga = *g;
    assert(root_made(g0, ga, rr));
    let r = match rr {
        Ok(root) => make_nodes(g, root, entries, modules, f),
        Err(e) => Err(e),
    };
    assert(populated(g0, *g, entries@, modules@, f, r));
    r
}

/// Update the root's copy of the frame counts. Cheap; called after allocation
/// bursts so the dump does not lie.
pub fn refresh_frame_counts(g: &mut Graph, frames: &Option<FrameAllocator<'_>>)
    requires
        old(g).wf(),
        *frames matches Some(fa) ==> fa.wf(),
    ensures
        final(g).wf(),
        match frames {
            Some(fa) => if old(g)@.root_id.is_null() {
                *final(g) == *old(g)
            } else {
                final(g)@ == counted(
                    old(g)@,
                    old(g)@.root_id,
                    fa.total_frames as u64,
                    fa.free_frames as u64,
                )
            },
            None => *final(g) == *old(g),
        },
        final(g)@.since(old(g)@),
{
    let root = match g.root() {
        Some(r) => r,
        None => return,
    };
    match frames {
        Some(fa) => write_counts(g, root, fa.total_frames() as u64, fa.free_frames() as u64),
        None => {},
    }
}

// ------------------------------------------------------------------ checks ---

/// Everything that can be found wrong: the graph's own invariants, and those
/// that need hardware.
#[derive(Clone, Copy, Debug, PartialEq, Eq)]
pub enum Inconsistency {
    Graph(Violation),
    PageTables(I5),
    /// A thread wrote past the bottom of its kernel stack.
    StackOverflow(NodeId),
}

/// The hardware the graph speaks of can be looked at: the page tables of every
/// user space are tables, and every kernel stack lies in memory.
pub open spec fn inspectable(g: Graph, mem: Seq<u8>, hhdm: u64) -> bool {
    &&& forall|s: NodeId| #[trigger]
        g@.user_space(s) ==> crate::tables::tree(mem, crate::vm::root_in(g@, s))
            && g@.mappings_fit(s)
    &&& forall|t: NodeId| #[trigger]
        g@.nodes.contains_key(t) && t.kind() == Some(NodeKind::Thread) && g@.thread(t).kstack_top
            != 0 ==> hhdm + crate::sched::KSTACK_PAGES * 4096 <= g@.thread(t).kstack_top
            && g@.thread(t).kstack_top - hhdm <= mem.len()
}

/// Every kernel stack still has its canary.
pub open spec fn stacks_ok(g: Graph, mem: Seq<u8>, hhdm: u64) -> bool {
    forall|t: NodeId| #[trigger]
        g@.nodes.contains_key(t) && t.kind() == Some(NodeKind::Thread) ==> crate::sched::stack_ok(
            g@,
            mem,
            hhdm,
            t,
        )
}

/// Run every invariant check against the graph and the hardware. This is not
/// optional tooling: a failure is a panic with a graph dump, not a log line.
pub fn check_now(c: &mut Checker, g: &Graph, mem: &[u8], hhdm: u64) -> (r: Result<(), Inconsistency>)
    requires
        g.checkable(),
        inspectable(*g, mem@, hhdm),
    ensures
        r is Ok <==> g.threaded() && g@.passes() && g@.tables_match(mem@) && stacks_ok(
            *g,
            mem@,
            hhdm,
        ),
        match r {
            Ok(_) => true,
            Err(Inconsistency::Graph(v)) => !(g.threaded() && g@.passes()) && v.is_first_of(*g),
            Err(Inconsistency::PageTables(x)) => g.threaded() && g@.passes() && x.is_first_of(*g, mem@),
            Err(Inconsistency::StackOverflow(t)) => g.threaded() && g@.passes() && g@.tables_match(
                mem@,
            ) && crate::sched::first_overrun(*g, mem@, hhdm, t),
        },
{
    match c.check(g) {
        Err(v) => return Err(Inconsistency::Graph(v)),
        Ok(_) => {},
    }
    match check_page_tables(g, mem) {
        Err(x) => return Err(Inconsistency::PageTables(x)),
        Ok(_) => {},
    }
    match crate::sched::check_stack_canaries(g, mem, hhdm) {
        Err(t) => return Err(Inconsistency::StackOverflow(t)),
        Ok(_) => {},
    }
    Ok(())
}

/// Run the kernel's own consistency check on demand.
///
/// Exposing this to userspace is the point of having one structure with stated
/// rules: any program can ask the kernel to prove it is internally consistent,
/// and get an answer rather than a promise.
pub fn sys_check(c: &mut Checker, g: &Graph, mem: &[u8], hhdm: u64) -> (r: i64)
    requires
        g.checkable(),
        inspectable(*g, mem@, hhdm),
    ensures
        r == if g.threaded() && g@.passes() && g@.tables_match(mem@) && stacks_ok(*g, mem@, hhdm) {
            0
        } else {
            crate::abi::E_BADKIND
        },
{
    match check_now(c, g, mem, hhdm) {
        Ok(_) => 0,
        Err(_) => crate::abi::E_BADKIND,
    }
}

} // verus!

//! The kernel's own side: its threads, its clock, what may be joined to what,
//! and what it takes from the machine at boot.

use vstd::prelude::*;

use crate::body::{Body, MemFlags, MemoryObject, NodeBody, Process, Rights, Thread, ThreadState};
use crate::boot::{Facts, Module};
use crate::edge::Dir;
use crate::elf::{ElfError, Image, Segment};
use crate::frames::{BitmapPlan, FrameAllocator, Region, RegionKind};
use crate::graph::{Graph, GraphError, Ref};
use crate::id::{EdgeId, EdgeKind, NodeId, NodeKind};
use crate::load::State;
use crate::proc::SpawnError;
use crate::sched::Stack;
use crate::view::{GraphView, ListKey};
use crate::vm::VmError;

verus! {

// ------------------------------------------------------------------- threads ---

/// A kernel thread that was made is new, the root's, and last in the queue. It
/// will go on at the address on its kernel stack, in the kernel's own space,
/// and owns the frames of that stack.
#[verifier::spinoff_prover]
pub proof fn a_kernel_thread_is_queued(
    g0: Graph,
    g1: Graph,
    root: NodeId,
    cpu: NodeId,
    s: Stack,
    t: Ref<Thread>,
)
    requires
        g0.wf(),
        crate::sched::kernel_thread_made(g0, g1, root, cpu, s, Ok::<Ref<Thread>, VmError>(t)),
    ensures
        !g0@.live(t.id()),
        g1@.live(t.id()),
        t.id().kind() == Some(NodeKind::Thread),
        g1@.owns(root, t.id()),
        g1@.thread(t.id()).state == ThreadState::Ready,
        g1@.thread(t.id()).saved_rsp == s.saved_rsp,
        g1@.thread(t.id()).kstack_top == s.top,
        g1@.thread(t.id()).cr3 == 0,
        g1@.run_queue(cpu).len() > 0,
        g1@.run_queue(cpu).last() == t.id(),
        exists|o: NodeId| #[trigger]
            g1@.owns(t.id(), o) && crate::laws_process::is_stack_object(g1@, o, s),
{
    let r = Ok::<Ref<Thread>, VmError>(t);
    let (ga, gb, ra) = choose|ga: Graph, gb: Graph, ra: Result<Ref<Thread>, GraphError>| #[trigger]
        crate::sched::kernel_thread_steps(g0, ga, gb, g1, root, cpu, s, ra, r);
    let body = crate::sched::kernel_thread(s);
    let obj = crate::vm::fresh_object(s.phys, crate::sched::KSTACK_PAGES);
    let rb = choose|rb: Result<Ref<MemoryObject>, GraphError>| #[trigger]
        gb.created(ga, t.id(), obj, rb);
    crate::laws_process::creating_adds_one(g0, ga, root, body, ra);
    crate::laws_process::creating_adds_one(ga, gb, t.id(), obj, rb);
    let tid = t.id();
    let oid = rb->Ok_0.id();
    let v = gb@;
    assert(ga@.nodes.contains_key(tid));
    assert(v.nodes[tid].body == Body::Thread(body));
    assert(ga@.list(tid, Dir::In, EdgeKind::Ready).len() == 0);
    assert(v.list(tid, Dir::In, EdgeKind::Ready).len() == 0);
    assert(v.list(tid, Dir::Out, EdgeKind::Waiting).len() == 0) by {
        assert(ga@.list(tid, Dir::Out, EdgeKind::Waiting).len() == 0);
    }
    let e = choose|e: EdgeId| #[trigger]
        v.descheduled(tid).unused(e) && g1@ == v.made_ready(cpu, tid, e);
    assert(v.descheduled(tid) == v);
    crate::laws_objects::queued_is_last(gb, g1@, cpu, tid);
    assert(g1@.edges_kept(v));
    crate::laws_process::owning_is_kept(ga@, v, root, tid);
    crate::laws_process::owning_is_kept(v, g1@, root, tid);
    crate::laws_process::owning_is_kept(v, g1@, tid, oid);
    assert(v.nodes.contains_key(oid));
    assert(oid != tid);
    assert(crate::laws_process::is_stack_object(g1@, oid, s));
}

/// The thread that stands for boot is new, the root's, and what the cpu runs.
pub proof fn the_boot_thread_runs(
    g0: Graph,
    g1: Graph,
    cpu: NodeId,
    root: NodeId,
    t: Ref<Thread>,
)
    requires
        g0.wf(),
        crate::sched::boot_thread_adopted(g0, g1, cpu, root, Ok::<Ref<Thread>, VmError>(t)),
    ensures
        !g0@.live(t.id()),
        g1@.live(t.id()),
        t.id().kind() == Some(NodeKind::Thread),
        g1@.owns(root, t.id()),
        g1@.thread(t.id()).state == ThreadState::Running,
        g1@.thread(t.id()).kstack_top == 0,
        g1@.cpu(cpu).current == t.id(),
{
    let r = Ok::<Ref<Thread>, VmError>(t);
    let (ga, ra) = choose|ga: Graph, ra: Result<Ref<Thread>, GraphError>| #[trigger]
        ga.created(g0, root, crate::sched::boot_thread(), ra) && ga.wf() && match ra {
            Err(e) => r == Err::<Ref<Thread>, VmError>(VmError::Graph(e)) && g1 == ga,
            Ok(t) => if ga@.is_cpu(cpu) {
                r == Ok::<Ref<Thread>, VmError>(t) && g1@ == ga@.with_current(cpu, t.id())
            } else {
                r == Err::<Ref<Thread>, VmError>(VmError::StaleSpace) && g1 == ga
            },
        };
    crate::laws_process::creating_adds_one(g0, ga, root, crate::sched::boot_thread(), ra);
    assert(ga@.nodes.contains_key(t.id()));
    assert(t.id() != cpu);
    crate::laws_process::owning_is_kept(ga@, g1@, root, t.id());
}

/// A tick counts one in the root, and changes nothing else.
pub proof fn a_tick_counts_one(g0: Graph, g1: Graph)
    requires
        g0.wf(),
        crate::sched::ticked(g0, g1),
        g0@.live(g0@.root_id),
        !g0@.root_id.is_null(),
        g0@.root_body().ticks < u64::MAX,
    ensures
        g1@.root_body().ticks == g0@.root_body().ticks + 1,
        g1@.root_body().total_frames == g0@.root_body().total_frames,
        g1@.root_body().free_frames == g0@.root_body().free_frames,
        g1@.edges == g0@.edges,
        g1@.lists == g0@.lists,
        forall|n: NodeId| #[trigger]
            g0@.nodes.contains_key(n) && n != g0@.root_id ==> g1@.nodes[n] == g0@.nodes[n],
{
}

// --------------------------------------------------------------------- kinds ---

/// What may be joined to what. Nothing owns a root, and only a root owns a cpu
/// or a device. Besides a root, a process owns what programs make, and a thread
/// memory alone. Only a process holds, and it may hold anything but a cpu. Only
/// threads are in spaces, are queued (by a cpu) and wait (on an endpoint or a
/// device). Only spaces map, and they map memory. Only a root names.
pub proof fn what_may_be_joined(kind: EdgeKind, a: NodeKind, b: NodeKind)
    ensures
        ({
            let ok = crate::id::spec_compatible(kind, a, b);
            let made = b == NodeKind::Process || b == NodeKind::Thread || b
                == NodeKind::AddressSpace || b == NodeKind::MemoryObject || b
                == NodeKind::Endpoint;
            &&& kind == EdgeKind::Owns && b == NodeKind::Root ==> !ok
            &&& kind == EdgeKind::Owns && a == NodeKind::Root && b != NodeKind::Root ==> ok
            &&& kind == EdgeKind::Owns && a == NodeKind::Process ==> (ok <==> made)
            &&& kind == EdgeKind::Owns && a == NodeKind::Thread ==> (ok <==> b
                == NodeKind::MemoryObject)
            &&& kind == EdgeKind::Owns && a != NodeKind::Root && a != NodeKind::Process && a
                != NodeKind::Thread ==> !ok
            &&& kind == EdgeKind::Holds ==> (ok <==> a == NodeKind::Process && b != NodeKind::Cpu)
            &&& kind == EdgeKind::InSpace ==> (ok <==> a == NodeKind::Thread && b
                == NodeKind::AddressSpace)
            &&& kind == EdgeKind::Maps ==> (ok <==> a == NodeKind::AddressSpace && b
                == NodeKind::MemoryObject)
            &&& kind == EdgeKind::Ready ==> (ok <==> a == NodeKind::Cpu && b == NodeKind::Thread)
            &&& kind == EdgeKind::Waiting ==> (ok <==> a == NodeKind::Thread && (b
                == NodeKind::Endpoint || b == NodeKind::Device))
            &&& kind == EdgeKind::Named ==> (ok <==> a == NodeKind::Root)
        }),
{
}

// -------------------------------------------------------------------- images ---

/// An image is an executable, at a fixed address, for this machine: 64 bits,
/// least byte first. Its program headers are inside the file, and large enough.
pub proof fn an_image_is_for_this_machine(b: Seq<u8>)
    ensures
        crate::elf::parse_error(b) is None ==> {
            &&& b.len() >= 64
            &&& b[0] == 0x7f && b[1] == 0x45 && b[2] == 0x4c && b[3] == 0x46
            &&& b[4] == 2
            &&& b[5] == 1
            &&& b[16] + 256 * b[17] == 2
            &&& b[18] + 256 * b[19] == 62
            &&& b[54] + 256 * b[55] >= 56
            &&& crate::edge::le64(b, 32) + (b[56] + 256 * b[57]) * (b[54] + 256 * b[55]) <= b.len()
        },
        b.len() < 64 <==> crate::elf::parse_error(b) == Some(ElfError::TooSmall),
        b.len() >= 64 && b[0] == 0x7f && b[1] == 0x45 && b[2] == 0x4c && b[3] == 0x46 && b[4] == 2
            && b[5] == 1 && b[16] + 256 * b[17] == 2 && b[18] + 256 * b[19] == 62 && b[54] + 256
            * b[55] >= 56 && crate::edge::le64(b, 32) + (b[56] + 256 * b[57]) * (b[54] + 256
            * b[55]) <= b.len() ==> crate::elf::parse_error(b) is None,
{
    assert(crate::mem::le16(b, 16) == b[16] + 256 * b[17]);
    assert(crate::mem::le16(b, 18) == b[18] + 256 * b[19]);
    assert(crate::mem::le16(b, 54) == b[54] + 256 * b[55]);
    assert(crate::mem::le16(b, 56) == b[56] + 256 * b[57]);
}

/// A segment is one that a program header describes: of the loadable kind, no
/// longer in the file than in memory, and with its bytes in the file.
pub open spec fn described(b: Seq<u8>, at: int, s: Segment) -> bool {
    &&& crate::edge::le32(b, at) == 1
    &&& s.flags == crate::edge::le32(b, at + 4)
    &&& s.offset == crate::edge::le64(b, at + 8)
    &&& s.vaddr == crate::edge::le64(b, at + 16)
    &&& s.file_size == crate::edge::le64(b, at + 32)
    &&& s.mem_size == crate::edge::le64(b, at + 40)
    &&& s.file_size <= s.mem_size
    &&& s.offset + s.file_size <= b.len()
}

/// The segments of an image are the ones that its program headers describe.
pub proof fn segments_are_described(image: Image<'_>, s: Segment)
    ensures
        image.spec_segments().contains(s) <==> exists|h: int|
            0 <= h < image.ph_count && #[trigger] described(
                image.bytes@,
                image.ph_offset + h * image.ph_entry_size,
                s,
            ),
{
    segments_described_below(image, image.ph_count as int, s);
}

proof fn segments_described_below(image: Image<'_>, n: int, s: Segment)
    requires
        0 <= n,
    ensures
        image.segments_below(n).contains(s) <==> exists|h: int|
            0 <= h < n && #[trigger] described(
                image.bytes@,
                image.ph_offset + h * image.ph_entry_size,
                s,
            ),
    decreases n,
{
    if n > 0 {
        segments_described_below(image, n - 1, s);
        let b = image.bytes@;
        let at = image.ph_offset + (n - 1) * image.ph_entry_size;
        assert(image.header_at(n - 1) == at);
        let less = image.segments_below(n - 1);
        let all = image.segments_below(n);
        match crate::elf::segment_at(b, at) {
            Some(x) => {
                assert(all == less.push(x));
                assert(described(b, at, x));
                if less.contains(s) {
                    let i = less.index_of(s);
                    assert(all[i] == s);
                }
                assert(all[less.len() as int] == x);
                if all.contains(s) && !less.contains(s) {
                    let i = all.index_of(s);
                    if i < less.len() {
                        assert(less[i] == s);
                    }
                    assert(s == x);
                }
                if described(b, at, s) {
                    assert(s == x);
                }
            },
            None => {
                assert(!described(b, at, s));
            },
        }
        if exists|h: int|
            0 <= h < n && #[trigger] described(b, image.ph_offset + h * image.ph_entry_size, s) {
            let h = choose|h: int|
                0 <= h < n && #[trigger] described(b, image.ph_offset + h * image.ph_entry_size, s);
            if h < n - 1 {
                assert(less.contains(s));
            }
        }
    }
}

// ---------------------------------------------------------------------- boot ---

/// As many pages as the bytes need: no fewer, and none to spare.
pub proof fn pages_are_enough(bytes: u64)
    requires
        bytes < 0xfff_ffff_f000,
    ensures
        bytes <= crate::boot::spec_pages_for(bytes) * 4096,
        crate::boot::spec_pages_for(bytes) * 4096 < bytes + 4096,
{
}

/// The script makes memory out of a base, pages and flags.
pub open spec fn asks_for(entries: Seq<Region>, modules: Seq<Module<'_>>, f: Facts, base: u64, pages: u32, flags: u32) -> bool {
    exists|i: int|
        0 <= i < crate::boot::boot_script(entries, modules, f).len() && (
        #[trigger] crate::boot::boot_script(entries, modules, f)[i]).body == Body::MemoryObject(
            MemoryObject { phys_base: base, pages, flags: MemFlags(flags), ..MemoryObject::spec_zero(
            ) },
        )
}

/// Boot puts into the graph what the machine has: the kernel's memory and every
/// module's, pinned (flag two), and every framebuffer's, as a device's (flag
/// one).
pub proof fn boot_puts_in_the_memory(
    entries: Seq<Region>,
    modules: Seq<Module<'_>>,
    f: Facts,
    i: int,
    j: int,
)
    requires
        0 <= i < entries.len(),
        0 <= j < modules.len(),
    ensures
        entries[i].kind == RegionKind::ExecutableAndModules ==> asks_for(
            entries,
            modules,
            f,
            entries[i].base,
            crate::boot::spec_pages_for(entries[i].length),
            2,
        ),
        entries[i].kind == RegionKind::Framebuffer ==> asks_for(
            entries,
            modules,
            f,
            entries[i].base,
            crate::boot::spec_pages_for(entries[i].length),
            1,
        ),
        modules[j].addr >= f.hhdm ==> asks_for(
            entries,
            modules,
            f,
            (modules[j].addr - f.hhdm) as u64,
            crate::boot::spec_pages_for(modules[j].size),
            2,
        ),
        asks_for(entries, modules, f, f.bitmap.phys, f.bitmap.pages, 2),
{
    let n = entries.len() as int;
    let m = modules.len() as int;
    let a = crate::boot::one(Body::Cpu(crate::body::Cpu::spec_zero()), "cpu0"@);
    let b = crate::boot::region_items(
        entries,
        n,
        RegionKind::ExecutableAndModules,
        MemFlags(2),
        "kernel-image"@,
    );
    let c = crate::boot::region_items(
        entries,
        n,
        RegionKind::Framebuffer,
        MemFlags(1),
        "framebuffer"@,
    );
    let d = crate::boot::one(
        crate::boot::memory(f.bitmap.phys, f.bitmap.pages, MemFlags(2)),
        "frame-bitmap"@,
    );
    let e = crate::boot::module_items(modules, m, f.hhdm);
    let s = crate::boot::boot_script(entries, modules, f);
    if entries[i].kind == RegionKind::ExecutableAndModules {
        let k = region_is_listed(
            entries,
            n,
            RegionKind::ExecutableAndModules,
            MemFlags(2),
            "kernel-image"@,
            i,
        );
        assert(s[a.len() + k] == b[k]);
    }
    if entries[i].kind == RegionKind::Framebuffer {
        let k = region_is_listed(
            entries,
            n,
            RegionKind::Framebuffer,
            MemFlags(1),
            "framebuffer"@,
            i,
        );
        assert(s[a.len() + b.len() + k] == c[k]);
    }
    assert(s[(a.len() + b.len() + c.len()) as int] == d[0]);
    module_is_listed(modules, m, f.hhdm, j);
    assert(s[a.len() + b.len() + c.len() + 1 + j] == e[j]);
}

proof fn region_is_listed(
    entries: Seq<Region>,
    n: int,
    kind: RegionKind,
    flags: MemFlags,
    name: Seq<char>,
    i: int,
) -> (k: int)
    requires
        0 <= i < n <= entries.len(),
        entries[i].kind == kind,
    ensures
        0 <= k < crate::boot::region_items(entries, n, kind, flags, name).len(),
        crate::boot::region_items(entries, n, kind, flags, name)[k].body == crate::boot::memory(
            entries[i].base,
            crate::boot::spec_pages_for(entries[i].length),
            flags,
        ),
    decreases n,
{
    let before = crate::boot::region_items(entries, n - 1, kind, flags, name);
    if i == n - 1 {
        before.len() as int
    } else {
        region_is_listed(entries, n - 1, kind, flags, name, i)
    }
}

proof fn module_is_listed(modules: Seq<Module<'_>>, n: int, hhdm: u64, j: int)
    requires
        0 <= j < n <= modules.len(),
    ensures
        crate::boot::module_items(modules, n, hhdm).len() == n,
        crate::boot::module_items(modules, n, hhdm)[j].body == crate::boot::memory(
            crate::boot::module_phys(modules[j].addr, hhdm),
            crate::boot::spec_pages_for(modules[j].size),
            MemFlags(2),
        ),
        j < 4 ==> crate::boot::module_items(modules, n, hhdm)[j].name == Some(
            crate::boot::short_text(modules[j].path@),
        ),
    decreases n,
{
    if j < n - 1 {
        module_is_listed(modules, n - 1, hhdm, j);
    } else if n > 1 {
        module_is_listed(modules, n - 1, hhdm, 0);
    } else {
        assert(crate::boot::module_items(modules, 0, hhdm).len() == 0);
    }
}

/// The first four modules are named, by what follows the last slash of their
/// path.
pub proof fn boot_names_the_modules(modules: Seq<Module<'_>>, hhdm: u64, j: int)
    requires
        0 <= j < modules.len(),
        j < 4,
        modules[j].addr >= hhdm,
    ensures
        ({
            let s = crate::boot::module_items(modules, modules.len() as int, hhdm);
            &&& s.len() == modules.len()
            &&& s[j].name == Some(crate::boot::short_text(modules[j].path@))
            &&& s[j].body == Body::MemoryObject(
                MemoryObject {
                    phys_base: (modules[j].addr - hhdm) as u64,
                    pages: crate::boot::spec_pages_for(modules[j].size),
                    flags: MemFlags(2),
                    ..MemoryObject::spec_zero()
                },
            )
        }),
{
    module_is_listed(modules, modules.len() as int, hhdm, j);
}

/// The short name of a path is what follows its last slash, as far as a name
/// goes.
pub proof fn a_short_name_is_the_last_part(path: Seq<u8>, i: int)
    requires
        0 <= i <= path.len(),
        i > 0 ==> path[i - 1] == 0x2f,
        forall|k: int| i <= k < path.len() ==> path[k] != 0x2f,
    ensures
        crate::boot::short_bytes(path) == path.subrange(
            i,
            if path.len() - i > 23 {
                i + 23
            } else {
                path.len() as int
            },
        ),
{
    the_last_slash(path, path.len() as int, i);
}

proof fn the_last_slash(path: Seq<u8>, n: int, i: int)
    requires
        0 <= i <= n <= path.len(),
        i > 0 ==> path[i - 1] == 0x2f,
        forall|k: int| i <= k < n ==> path[k] != 0x2f,
    ensures
        crate::boot::name_start(path, n) == i,
    decreases n,
{
    if n > i {
        the_last_slash(path, n - 1, i);
    }
}

// --------------------------------------------------------------------- waits ---

/// A thread whose wait is torn down is told so, and waits no more.
pub proof fn a_wait_torn_down_is_told(v: GraphView, e: u32)
    requires
        v.wf(),
        v.edges.contains_key(e),
        v.edges[e].kind == EdgeKind::Waiting,
        v.thread(v.edges[e].src).state == ThreadState::Blocked,
    ensures
        ({
            let t = v.edges[e].src;
            let w = v.unlink(e);
            &&& w.live(t)
            &&& w.thread(t).state == ThreadState::Inert
            &&& w.thread(t).wait_aborted != 0
            &&& w.thread(t).msg == v.thread(t).msg
            &&& !w.edges.contains_key(e)
        }),
{
    assert(v.edge_ok(e));
    assert(v.node_ok(v.edges[e].src));
}

/// The reaper names the thread whose wait it tore down: one that was waiting on
/// what is going away. The thread is told.
pub proof fn the_reaper_names_whom_it_wakes(v: GraphView, t: NodeId)
    requires
        v.wf(),
        v.inv(),
        v.reaped().1 == (crate::reap::ReapStep::AbortedWait { thread: t }),
    ensures
        v.waits_on(t, v.dying_head, crate::edge::WaitRole::Send) || v.waits_on(
            t,
            v.dying_head,
            crate::edge::WaitRole::Recv,
        ),
        v.reaped().0.live(t),
        v.reaped().0.thread(t).state == ThreadState::Inert,
        v.reaped().0.thread(t).wait_aborted != 0,
{
    let id = v.dying_head;
    let s = v.list(id, Dir::In, EdgeKind::Waiting);
    let key: ListKey = (id, Dir::In, EdgeKind::Waiting);
    assert(v.nodes.contains_key(id));
    assert(v.lists.contains_key(key));
    assert(v.list_ok(key));
    assert(s.len() > 0);
    let e = s[0];
    assert(v.edges.contains_key(e));
    assert(v.edge_ok(e));
    assert(v.nodes.contains_key(t));
    assert(v.node_ok(t) && v.body_ok(t));
    assert(v.list(t, Dir::Out, EdgeKind::Waiting).contains(e));
    assert(v.list(t, Dir::Out, EdgeKind::Waiting).len() > 0);
    assert(v.thread(t).state == ThreadState::Blocked);
    a_wait_torn_down_is_told(v, e);
}

// -------------------------------------------------------------------- memory ---

/// Memory that was allocated is new, its owner's, and plain: no flag keeps it
/// from going back. Its frames were free, and are its own.
pub proof fn an_object_is_memory_of_its_own(
    g0: Graph,
    fa: FrameAllocator<'_>,
    g1: Graph,
    fb: FrameAllocator<'_>,
    owner: NodeId,
    pages: u32,
    o: Ref<MemoryObject>,
)
    requires
        g0.wf(),
        crate::vm::object_made(
            g0,
            Some(fa),
            g1,
            Some(fb),
            owner,
            pages,
            Ok::<Ref<MemoryObject>, VmError>(o),
        ),
    ensures
        !g0@.live(o.id()),
        g1@.live(o.id()),
        o.id().kind() == Some(NodeKind::MemoryObject),
        g1@.owns(owner, o.id()),
        g1@.memobj(o.id()).pages == pages,
        g1@.memobj(o.id()).flags.0 == 0,
        g1@.memobj(o.id()).map_count == 0,
        g1@.memobj(o.id()).phys_base % 4096 == 0,
        g1@.memobj(o.id()).phys_base != 0,
        forall|f: int|
            g1@.memobj(o.id()).phys_base <= 4096 * f < g1@.memobj(o.id()).phys_base + 4096 * pages
                ==> #[trigger] fa.free(f) && !fb.free(f),
        forall|f: int| #[trigger] fb.free(f) ==> fa.free(f),
{
    let r = Ok::<Ref<MemoryObject>, VmError>(o);
    let phys = choose|phys: u64| #[trigger]
        crate::vm::object_made_at(g0, fa, g1, Some(fb), owner, pages, r, phys);
    crate::laws_process::creating_adds_one(
        g0,
        g1,
        owner,
        crate::vm::fresh_object(phys, pages),
        crate::vm::graph_answer(r),
    );
    let at = phys as int / 4096;
    assert(fa.fits(at, pages as int));
    assert forall|f: int|
        phys <= 4096 * f < phys + 4096 * pages implies #[trigger] fa.free(f) && !fb.free(f) by {
        assert(at <= f < at + pages);
        assert(fa.free(f));
    }
}

/// The bytes of a frame are in a region.
pub open spec fn inside(e: Region, f: int) -> bool {
    e.base <= 4096 * f && 4096 * f + 4096 <= e.base + e.length
}

/// The first pool is the memory that the machine gives: a frame of it lies
/// inside a usable region, is not the first of all, and holds no part of the
/// bitmap; and every such frame is in it.
pub proof fn the_pool_is_usable_memory(
    entries: Seq<Region>,
    plan: BitmapPlan,
    r: FrameAllocator<'_>,
    f: int,
)
    requires
        crate::frames::pool_of(entries, plan, r),
        plan.phys % 4096 == 0,
        forall|i: int| 0 <= i < entries.len() ==> (#[trigger] entries[i]).base % 4096 == 0,
    ensures
        r.free(f) <==> {
            &&& f != 0
            &&& !(plan.phys <= 4096 * f && 4096 * f < plan.phys + 4096 * plan.pages)
            &&& exists|i: int|
                0 <= i < entries.len() && inside(#[trigger] entries[i], f) && entries[i].kind
                    == RegionKind::Usable
        },
{
    assert(plan.phys as int / 4096 <= f < plan.phys as int / 4096 + plan.pages <==> plan.phys <= 4096
        * f && 4096 * f < plan.phys + 4096 * plan.pages);
    assert forall|i: int| 0 <= i < entries.len() implies ((#[trigger] entries[i]).gives(f)
        <==> inside(entries[i], f) && entries[i].kind == RegionKind::Usable) by {}
    if exists|i: int| 0 <= i < entries.len() && (#[trigger] entries[i]).gives(f) {
        let i = choose|i: int| 0 <= i < entries.len() && (#[trigger] entries[i]).gives(f);
        assert(inside(entries[i], f));
    }
    if exists|i: int|
        0 <= i < entries.len() && inside(#[trigger] entries[i], f) && entries[i].kind
            == RegionKind::Usable {
        let i = choose|i: int|
            0 <= i < entries.len() && inside(#[trigger] entries[i], f) && entries[i].kind
                == RegionKind::Usable;
        assert(entries[i].gives(f));
    }
}

/// The bitmap has a bit for every frame, and lies in a usable region; every
/// usable byte is in one of its frames.
pub proof fn the_bitmap_is_large_enough(entries: Seq<Region>, plan: BitmapPlan, i: int)
    requires
        crate::frames::is_plan(entries, plan),
        0 <= i < entries.len(),
        entries[i].kind == RegionKind::Usable,
        forall|i: int| 0 <= i < entries.len() ==> (#[trigger] entries[i]).fits(),
    ensures
        plan.total_frames <= plan.pages * 4096 * 8,
        entries[i].base + entries[i].length <= plan.total_frames * 4096,
        exists|j: int|
            0 <= j < entries.len() && (#[trigger] entries[j]).kind == RegionKind::Usable
                && entries[j].base == plan.phys && plan.pages * 4096 <= entries[j].length,
{
    crate::frames::highest_covers(entries, entries.len() as int);
    let h = crate::frames::highest(entries, entries.len() as int);
    assert(entries[i].usable());
    assert(h <= (h + 4095) / 4096 * 4096);
    let j = choose|j: int|
        #[trigger] crate::frames::first_room(entries, plan.pages * 4096, j) && entries[j].base
            == plan.phys;
    assert(entries[j].usable());
}

// ------------------------------------------------------------------ spawning ---

/// A process that was spawned is new, and a thread of it, with its stack, is
/// last in the queue.
pub proof fn a_spawned_process_is_queued(
    s0: State<'_>,
    s1: State<'_>,
    owner: NodeId,
    bytes: Seq<u8>,
    active: u64,
    hhdm: u64,
    stub: u64,
    cpu: NodeId,
    grants: Seq<(NodeId, Rights)>,
    p: Ref<Process>,
)
    requires
        crate::spawn::spawned(
            s0,
            s1,
            owner,
            bytes,
            active,
            hhdm,
            stub,
            cpu,
            grants,
            Ok::<Ref<Process>, SpawnError>(p),
        ),
    ensures
        !s0.g@.live(p.id()),
        p.id().kind() == Some(NodeKind::Process),
        s1.g@.run_queue(cpu).len() > 0,
        s1.g@.thread(s1.g@.run_queue(cpu).last()).state == ThreadState::Ready,
        s1.g@.run_queue(cpu).last().kind() == Some(NodeKind::Thread),
{
    let r = Ok::<Ref<Process>, SpawnError>(p);
    let (sa, ra) = choose|
        sa: State<'_>,
        ra: Result<(Ref<Process>, Ref<Thread>), SpawnError>,
    | #[trigger]
        crate::spawn::prepared(s0, sa, owner, bytes, active, hhdm, stub, grants, ra) && sa.g.wf()
            && match ra {
            Err(e) => r == Err::<Ref<Process>, SpawnError>(e) && s1 == sa,
            Ok((p, t)) => {
                &&& s1.mem == sa.mem
                &&& s1.frames == sa.frames
                &&& crate::spawn::thread_queued(sa.g, s1.g, cpu, t.id(), p, r)
            },
        };
    let (q, t) = ra->Ok_0;
    crate::laws_process::a_new_process_starts_at_its_entry(
        s0,
        sa,
        owner,
        bytes,
        active,
        hhdm,
        stub,
        grants,
        q,
        t,
    );
    let (space, st) = choose|space: NodeId, st: Stack| #[trigger]
        crate::laws_process::first_thread(
            sa.g@,
            t.id(),
            q.id(),
            space,
            crate::edge::le64(bytes, 24),
            st,
        );
    assert(q == p);
    crate::laws_objects::queued_is_last(sa.g, s1.g@, cpu, t.id());
}

} // verus!

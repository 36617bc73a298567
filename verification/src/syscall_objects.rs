//! The calls that make, hand out, start and destroy objects, and those that
//! pass messages.

use vstd::prelude::*;

use crate::abi::{
    E_BADHANDLE, E_BADIMAGE, E_BADKIND, E_FAULT, E_NOSPACE, E_PERM, MSG_WORDS,
};
use crate::body::{Endpoint, MemoryObject, NodeBody, Process, Rights, Thread};
use crate::edge::Prot;
use crate::frames::FrameAllocator;
use crate::graph::{Graph, GraphError, Ref};
use crate::id::{NodeId, NodeKind};
use crate::inspect::snapshot_size;
use crate::ipc::{recv, send, Received, Step};
use crate::load::State;
use crate::proc::SpawnError;
use crate::sched::process_of;
use crate::spawn::{prepare, start, Owner};
use crate::syscall::{handle, slot, user_range_ok};
use crate::view::GraphView;

verus! {

// --------------------------------------------------------------- processes ---

impl GraphView {
    /// A handle that has to name a process.
    pub open spec fn process_handle(self, t: NodeId, arg: u64, need: Rights) -> Result<NodeId, i64> {
        match self.handle(t, arg, need) {
            Err(e) => Err(e),
            Ok(id) => if id.kind() != Some(NodeKind::Process) {
                Err(E_BADKIND)
            } else {
                Ok(id)
            },
        }
    }
}

/// Resolve a slot that must name a process, with the given right.
pub fn resolve_process(g: &Graph, current: NodeId, arg: u64, need: Rights) -> (r: Result<
    (Ref<Process>, Ref<Process>),
    i64,
>)
    requires
        g.wf(),
    ensures
        r matches Ok((p, q)) ==> g@.process_of(current) == Some(p.id()) && g@.process_handle(
            current,
            arg,
            need,
        ) == Ok::<NodeId, i64>(q.id()) && g@.live(q.id()) && g@.live(p.id()),
        r matches Err(e) ==> g@.process_handle(current, arg, need) == Err::<NodeId, i64>(e),
{
    let (p, id): (Ref<Process>, NodeId) = match handle(g, current, arg, need) {
        Ok(x) => x,
        Err(e) => return Err(e),
    };
    match g.typed::<Process>(id) {
        Some(q) => Ok((p, q)),
        None => Err(E_BADKIND),
    }
}

/// What a grant comes to.
pub open spec fn grant_answered(
    g0: Graph,
    g1: Graph,
    t: NodeId,
    proc_arg: u64,
    cap_arg: u64,
    mask: u64,
    r: i64,
) -> bool {
    match g0@.process_handle(t, proc_arg, Rights(32)) {
        Err(e) => r == e && g1 == g0,
        Ok(child) => {
            let p = g0@.process_of(t)->Some_0;
            let cap = crate::syscall::slot_of(cap_arg);
            match g0@.resolution(p, cap, Rights(0)) {
                Err(_) => r == E_BADHANDLE && g1 == g0,
                Ok(target) => exists|rg: Result<u32, GraphError>| #[trigger]
                    g1.capability_granted(
                        g0,
                        child,
                        target,
                        g0@.slot_rights(p, cap)->Some_0.spec_intersect(
                            Rights(crate::syscall::slot_of(mask)),
                        ),
                        rg,
                    ) && r == match rg {
                        Ok(slot) => slot as i64,
                        Err(GraphError::NoFreeSlot) => E_NOSPACE,
                        Err(_) => E_BADHANDLE,
                    },
            }
        },
    }
}

/// Copy one of the caller's capabilities into another process, narrowed.
pub fn sys_grant(g: &mut Graph, current: NodeId, proc_arg: u64, cap_arg: u64, mask: u64) -> (r: i64)
    requires
        old(g).wf(),
        old(g).seq < u64::MAX,
    ensures
        final(g).wf(),
        grant_answered(*old(g), *final(g), current, proc_arg, cap_arg, mask, r),
        final(g)@.since(old(g)@),
{
    let (parent, child): (Ref<Process>, Ref<Process>) = match resolve_process(
        g,
        current,
        proc_arg,
        Rights::grant(),
    ) {
        Ok(x) => x,
        Err(e) => return e,
    };
    match g.copy_cap(parent, slot(cap_arg), child, Rights(slot(mask))) {
        Ok(s) => s as i64,
        Err(GraphError::NoFreeSlot) => E_NOSPACE,
        Err(_) => E_BADHANDLE,
    }
}

/// What asking to start a process comes to.
pub open spec fn start_answered(
    g0: Graph,
    g1: Graph,
    cpu0: NodeId,
    t: NodeId,
    proc_arg: u64,
    r: i64,
) -> bool {
    match g0@.process_handle(t, proc_arg, Rights(128)) {
        Err(e) => r == e && g1 == g0,
        Ok(child) => started(g0, g1, cpu0, child, r),
    }
}

/// Start a process that was spawned.
pub fn sys_start(g: &mut Graph, cpu0: NodeId, current: NodeId, proc_arg: u64) -> (r: i64)
    requires
        old(g).wf(),
        old(g).seq + 3 <= u64::MAX,
    ensures
        final(g).wf(),
        start_answered(*old(g), *final(g), cpu0, current, proc_arg, r),
        final(g)@.since(old(g)@),
{
    let (_, child): (Ref<Process>, Ref<Process>) = match resolve_process(
        g,
        current,
        proc_arg,
        Rights::manage(),
    ) {
        Ok(x) => x,
        Err(e) => return e,
    };
    let ghost g0 = *g;
    let rq = start(g, cpu0, child);
    let r: i64 = match rq {
        Ok(_) => 0,
        Err(_) => E_BADHANDLE,
    };
    proof {
        if exists|i: int| crate::spawn::first_owned_thread(g0@, child.id(), i) {
            let i = choose|i: int| crate::spawn::first_owned_thread(g0@, child.id(), i);
            assert(crate::spawn::first_owned_thread(g0@, child.id(), i));
            assert(queued_first(g0, *g, cpu0, child.id(), i, child, rq));
        }
        assert(started(g0, *g, cpu0, child.id(), r));
    }
    r
}

/// What starting a process comes to: its first thread is queued, or there is
/// none, or it could not be.
pub open spec fn started(g0: Graph, g1: Graph, cpu0: NodeId, child: NodeId, r: i64) -> bool {
    ||| (forall|i: int| !crate::spawn::first_owned_thread(g0@, child, i)) && r == E_BADHANDLE && g1
        == g0
    ||| exists|i: int, p: Ref<Process>, rq: Result<Ref<Process>, SpawnError>|
        #![trigger crate::spawn::first_owned_thread(g0@, child, i), queued_first(g0, g1, cpu0, child, i, p, rq)]
        crate::spawn::first_owned_thread(g0@, child, i) && queued_first(
            g0,
            g1,
            cpu0,
            child,
            i,
            p,
            rq,
        ) && r == match rq {
            Ok(_) => 0,
            Err(_) => E_BADHANDLE,
        }
}

pub open spec fn queued_first(
    g0: Graph,
    g1: Graph,
    cpu0: NodeId,
    child: NodeId,
    i: int,
    p: Ref<Process>,
    rq: Result<Ref<Process>, SpawnError>,
) -> bool {
    crate::spawn::thread_queued(
        g0,
        g1,
        cpu0,
        g0@.edges[g0@.list(child, crate::edge::Dir::Out, crate::id::EdgeKind::Owns)[i]].dst,
        p,
        rq,
    )
}

/// What a kill comes to.
pub open spec fn kill_answered(g0: Graph, g1: Graph, t: NodeId, proc_arg: u64, r: i64) -> bool {
    match g0@.process_handle(t, proc_arg, Rights(128)) {
        Err(e) => r == e && g1 == g0,
        Ok(child) => r == 0 && g1@ == g0@.deleted(child),
    }
}

/// Destroy a process. One edge is detached; everything it owns follows.
pub fn sys_kill(g: &mut Graph, current: NodeId, proc_arg: u64) -> (r: i64)
    requires
        old(g).wf(),
        old(g).seq + 4 <= u64::MAX,
    ensures
        final(g).wf(),
        kill_answered(*old(g), *final(g), current, proc_arg, r),
        final(g)@.since(old(g)@),
{
    let (_, child): (Ref<Process>, Ref<Process>) = match resolve_process(
        g,
        current,
        proc_arg,
        Rights::manage(),
    ) {
        Ok(x) => x,
        Err(e) => return e,
    };
    match g.begin_delete(child.id()) {
        Ok(_) => 0,
        Err(_) => E_BADHANDLE,
    }
}

/// What making an endpoint comes to.
pub open spec fn endpoint_made(g0: Graph, g1: Graph, t: NodeId, r: i64) -> bool {
    if g0@.process_of(t) is None {
        r == E_BADHANDLE && g1 == g0
    } else {
        exists|ga: Graph, re: Result<Ref<Endpoint>, GraphError>, rg: Result<u32, GraphError>| #[trigger]
            endpoint_steps(g0, ga, g1, g0@.process_of(t)->Some_0, re, rg, r)
    }
}

/// The same, with the graph in between.
pub open spec fn endpoint_steps(
    g0: Graph,
    ga: Graph,
    g1: Graph,
    p: NodeId,
    re: Result<Ref<Endpoint>, GraphError>,
    rg: Result<u32, GraphError>,
    r: i64,
) -> bool {
    &&& ga.wf()
    &&& ga.created(g0, p, Endpoint::spec_zero(), re)
    &&& match re {
        Err(_) => r == E_NOSPACE && g1 == ga,
        Ok(ep) => g1.capability_granted(ga, p, ep.id(), Rights(255), rg) && r == match rg {
            Ok(slot) => slot as i64,
            Err(_) => E_NOSPACE,
        },
    }
}

/// Make an endpoint. It is owned by the caller, so it dies with the caller and
/// every capability to it is revoked at that moment.
pub fn sys_endpoint(g: &mut Graph, current: NodeId) -> (r: i64)
    requires
        old(g).wf(),
        old(g).seq + 2 <= u64::MAX,
    ensures
        final(g).wf(),
        endpoint_made(*old(g), *final(g), current, r),
        final(g)@.since(old(g)@),
{
    let ghost g0 = *g;
    let p = match process_of(g, current) {
        Some(p) => p,
        None => return E_BADHANDLE,
    };
    let re = g.create_under_process(p, Endpoint::zero());
    let ghost ga = *g;
    assert(ga.created(g0, p.id(), Endpoint::spec_zero(), re));
    let ep = match re {
        Ok(e) => e,
        Err(_) => {
            assert(endpoint_steps(
                g0,
                ga,
                *g,
                g0@.process_of(current)->Some_0,
                re,
                Ok::<u32, GraphError>(0),
                E_NOSPACE,
            ));
            assert(endpoint_made(g0, *g, current, E_NOSPACE));
            return E_NOSPACE;
        },
    };
    let rg = g.grant(p, ep, Rights::all());
    assert(g.capability_granted(ga, p.id(), ep.id(), Rights(255), rg));
    let r: i64 = match rg {
        Ok(s) => s as i64,
        Err(_) => E_NOSPACE,
    };
    assert(endpoint_steps(g0, ga, *g, g0@.process_of(current)->Some_0, re, rg, r));
    assert(endpoint_made(g0, *g, current, r));
    r
}

/// The image a spawn names: where its memory is, and how many pages.
pub open spec fn image_handle(v: GraphView, t: NodeId, arg: u64) -> Result<(u64, u32), i64> {
    match v.handle(t, arg, Rights(1)) {
        Err(e) => Err(e),
        Ok(id) => if id.kind() != Some(NodeKind::MemoryObject) {
            Err(E_BADKIND)
        } else {
            Ok((v.memobj(id).phys_base, v.memobj(id).pages))
        },
    }
}

/// What spawning from an image comes to.
pub open spec fn process_spawned(
    s0: State<'_>,
    s1: State<'_>,
    t: NodeId,
    bytes: Seq<u8>,
    active: u64,
    hhdm: u64,
    stub: u64,
    r: i64,
) -> bool {
    child_spawned(s0, s1, s0.g@.process_of(t)->Some_0, bytes, active, hhdm, stub, r)
}

/// The same, for the process that spawns.
pub open spec fn child_spawned(
    s0: State<'_>,
    s1: State<'_>,
    p: NodeId,
    bytes: Seq<u8>,
    active: u64,
    hhdm: u64,
    stub: u64,
    r: i64,
) -> bool {
    exists|sa: State<'_>, rp: Result<(Ref<Process>, Ref<Thread>), SpawnError>| #[trigger]
        crate::spawn::prepared(s0, sa, p, bytes, active, hhdm, stub, Seq::empty(), rp) && sa.g.wf()
            && child_granted(sa, s1, p, rp, r)
}

/// The parent gets a capability to what it just made, with full rights over
/// it. That is the only handle to the child in existence.
pub open spec fn child_granted(
    sa: State<'_>,
    s1: State<'_>,
    p: NodeId,
    rp: Result<(Ref<Process>, Ref<Thread>), SpawnError>,
    r: i64,
) -> bool {
    match rp {
        Err(SpawnError::Elf(_)) => r == E_BADIMAGE && s1 == sa,
        Err(_) => r == E_NOSPACE && s1 == sa,
        Ok((child, _)) => {
            &&& s1.mem == sa.mem
            &&& s1.frames == sa.frames
            &&& full_handle(sa.g, s1.g, p, child.id(), r)
        },
    }
}

/// A process was granted full rights over an object; the slot, or no space.
pub open spec fn full_handle(g0: Graph, g1: Graph, p: NodeId, id: NodeId, r: i64) -> bool {
    exists|rg: Result<u32, GraphError>| #[trigger]
        g1.capability_granted(g0, p, id, Rights(255), rg) && r == match rg {
            Ok(slot) => slot as i64,
            Err(_) => E_NOSPACE,
        }
}

fn grant_full(g: &mut Graph, p: Ref<Process>, child: Ref<Process>) -> (r: i64)
    requires
        old(g).wf(),
        old(g).seq < u64::MAX,
    ensures
        final(g).wf(),
        full_handle(*old(g), *final(g), p.id(), child.id(), r),
        final(g)@.since(old(g)@),
{
    let ghost g0 = *g;
    let rg = g.grant(p, child, Rights::all());
    assert(g.capability_granted(g0, p.id(), child.id(), Rights(255), rg));
    let r: i64 = match rg {
        Ok(s) => s as i64,
        Err(_) => E_NOSPACE,
    };
    assert(full_handle(g0, *g, p.id(), child.id(), r));
    r
}

/// Find the image that a spawn names.
pub fn spawn_image(g: &Graph, current: NodeId, arg: u64) -> (r: Result<(u64, u32), i64>)
    requires
        g.wf(),
    ensures
        r == image_handle(g@, current, arg),
{
    let (_, id): (Ref<Process>, NodeId) = match handle(g, current, arg, Rights::read()) {
        Ok(x) => x,
        Err(e) => return Err(e),
    };
    let m = match g.typed::<MemoryObject>(id) {
        Some(m) => m,
        None => return Err(E_BADKIND),
    };
    match g.body(m) {
        Some(b) => {
            proof {
                assert(g@.nodes.contains_key(id));
                assert(g@.node_ok(id));
            }
            Ok((b.phys_base, b.pages))
        },
        None => Err(E_BADHANDLE),
    }
}

/// What asking to spawn comes to.
pub open spec fn spawn_answered(
    s0: State<'_>,
    s1: State<'_>,
    t: NodeId,
    arg: u64,
    active: u64,
    hhdm: u64,
    stub: u64,
    r: i64,
) -> bool {
    match image_handle(s0.g@, t, arg) {
        Err(e) => r == e && s1 == s0,
        Ok((phys, pages)) => process_spawned(
            s0,
            s1,
            t,
            s0.mem.subrange(phys as int, phys + pages * 4096),
            active,
            hhdm,
            stub,
            r,
        ),
    }
}

/// Create a process from an image the caller can read.
///
/// The authority to spawn is the authority to read the image, and nothing else
/// is needed: the new process is *owned by its parent*, so everything it
/// consumes is already accounted to the parent's subtree and dies with it. A
/// program that spawns cannot outrun its own quota by proxy.
pub fn sys_spawn(
    g: &mut Graph,
    mem: &mut [u8],
    frames: &mut Option<FrameAllocator<'_>>,
    active: u64,
    hhdm: u64,
    stub: u64,
    current: NodeId,
    arg: u64,
) -> (r: i64)
    requires
        old(g).wf(),
        old(g).seq + 67 < u64::MAX,
        crate::spawn::machine_ok(old(mem)@, *old(frames), hhdm),
        *old(frames) matches Some(fa) ==> crate::paging::ready(
            fa,
            old(mem)@,
            crate::paging::root_of(active),
        ),
        image_handle(old(g)@, current, arg) matches Ok((phys, pages)) ==> phys + pages * 4096
            <= old(mem)@.len() && crate::spawn::image_fits(
            old(mem)@.subrange(phys as int, phys + pages * 4096),
        ),
    ensures
        final(g).wf(),
        spawn_answered(
            State { g: *old(g), mem: old(mem)@, frames: *old(frames) },
            State { g: *final(g), mem: final(mem)@, frames: *final(frames) },
            current,
            arg,
            active,
            hhdm,
            stub,
            r,
        ),
        final(g)@.since(old(g)@),
{
    let (phys, pages): (u64, u32) = match spawn_image(g, current, arg) {
        Ok(x) => x,
        Err(e) => return e,
    };
    let p = match process_of(g, current) {
        Some(p) => p,
        None => return E_BADHANDLE,
    };
    assert(mem.len() == mem@.len());
    let image = vstd::slice::slice_to_vec(
        vstd::slice::slice_subrange(mem, phys as usize, phys as usize + pages as usize * 4096),
    );
    spawn_child(g, mem, frames, active, hhdm, stub, p, &image)
}

/// Create a process under another, and give the parent the handle to it.
fn spawn_child(
    g: &mut Graph,
    mem: &mut [u8],
    frames: &mut Option<FrameAllocator<'_>>,
    active: u64,
    hhdm: u64,
    stub: u64,
    p: Ref<Process>,
    image: &Vec<u8>,
) -> (r: i64)
    requires
        old(g).wf(),
        old(g).seq + 67 < u64::MAX,
        crate::spawn::machine_ok(old(mem)@, *old(frames), hhdm),
        *old(frames) matches Some(fa) ==> crate::paging::ready(
            fa,
            old(mem)@,
            crate::paging::root_of(active),
        ),
        crate::spawn::image_fits(image@),
    ensures
        final(g).wf(),
        child_spawned(
            State { g: *old(g), mem: old(mem)@, frames: *old(frames) },
            State { g: *final(g), mem: final(mem)@, frames: *final(frames) },
            p.id(),
            image@,
            active,
            hhdm,
            stub,
            r,
        ),
        final(g)@.since(old(g)@),
{
    let ghost s0 = State { g: *g, mem: mem@, frames: *frames };
    let none: Vec<(NodeId, Rights)> = Vec::new();
    let rp = prepare(
        g,
        mem,
        frames,
        active,
        hhdm,
        stub,
        Owner::Process(p),
        image.as_slice(),
        &none,
    );
    let ghost sa = State { g: *g, mem: mem@, frames: *frames };
    assert(none@ =~= Seq::<(NodeId, Rights)>::empty());
    assert(crate::spawn::prepared(
        s0,
        sa,
        p.id(),
        image@,
        active,
        hhdm,
        stub,
        Seq::empty(),
        rp,
    ));
    let r: i64 = match rp {
        Ok((child, _)) => grant_full(g, p, child),
        Err(SpawnError::Elf(_)) => E_BADIMAGE,
        Err(_) => E_NOSPACE,
    };
    proof {
        let s1 = State { g: *g, mem: mem@, frames: *frames };
        assert(child_granted(sa, s1, p.id(), rp, r));
        assert(child_spawned(s0, s1, p.id(), image@, active, hhdm, stub, r));
    }
    r
}

// ---------------------------------------------------------------- messages ---

/// The words that bytes hold.
pub open spec fn words_in(b: Seq<u8>) -> Seq<u64> {
    Seq::new(8, |i: int| crate::edge::le64(b, 8 * i))
}

/// The bytes of eight words.
pub open spec fn words_bytes(w: Seq<u64>, n: int) -> Seq<u8>
    decreases n,
{
    if n <= 0 {
        Seq::empty()
    } else {
        words_bytes(w, n - 1) + crate::edge::u64_bytes(w[n - 1])
    }
}

/// Read the eight message words out of the bytes of a message buffer.
pub fn read_words(bytes: &[u8]) -> (r: [u64; MSG_WORDS])
    requires
        bytes@.len() == 64,
    ensures
        r@ == words_in(bytes@),
{
    let mut words: [u64; MSG_WORDS] = [0;MSG_WORDS];
    let mut i: usize = 0;
    while i < MSG_WORDS
        invariant
            i <= MSG_WORDS,
            bytes@.len() == 64,
            forall|j: int| 0 <= j < i ==> #[trigger] words@[j] == crate::edge::le64(bytes@, 8 * j),
        decreases MSG_WORDS - i,
    {
        words[i] = crate::mem::read_u64(bytes, 8 * i);
        i = i + 1;
    }
    assert(words@ =~= words_in(bytes@));
    words
}

/// Write eight message words into the bytes of a message buffer.
pub fn write_words(bytes: &mut [u8], words: &[u64; MSG_WORDS])
    requires
        old(bytes)@.len() == 64,
    ensures
        final(bytes)@ == words_bytes(words@, 8),
{
    let mut i: usize = 0;
    proof {
        words_bytes_length(words@, 0);
    }
    while i < MSG_WORDS
        invariant
            i <= MSG_WORDS,
            bytes@.len() == 64,
            words_bytes(words@, i as int).len() == 8 * i,
            bytes@.subrange(0, 8 * i as int) == words_bytes(words@, i as int),
        decreases MSG_WORDS - i,
    {
        let ghost before = bytes@;
        crate::mem::write_u64(bytes, 8 * i, words[i]);
        proof {
            words_bytes_length(words@, i + 1);
            assert(bytes@.subrange(0, 8 * (i + 1)) =~= words_bytes(words@, i + 1)) by {
                let w = words_bytes(words@, i as int);
                assert forall|k: int| 0 <= k < 8 * (i + 1) implies bytes@[k] == words_bytes(
                    words@,
                    i + 1,
                )[k] by {
                    if k < 8 * i {
                        assert(before.subrange(0, 8 * i as int)[k] == w[k]);
                    }
                }
            }
        }
        i = i + 1;
    }
    assert(bytes@.subrange(0, 64) =~= bytes@);
}

proof fn words_bytes_length(w: Seq<u64>, n: int)
    requires
        0 <= n,
    ensures
        words_bytes(w, n).len() == 8 * n,
    decreases n,
{
    if n > 0 {
        words_bytes_length(w, n - 1);
    }
}

/// Words written into a buffer are the words read from it.
pub proof fn words_read_back(w: Seq<u64>)
    requires
        w.len() == 8,
    ensures
        words_in(words_bytes(w, 8)) == w,
{
    words_bytes_length(w, 8);
    assert forall|i: int| 0 <= i < 8 implies #[trigger] crate::edge::le64(words_bytes(w, 8), 8 * i)
        == w[i] by {
        word_lies(w, 8, i);
        crate::edge::le64_reads_u64_bytes(words_bytes(w, 8), 8 * i, w[i]);
    }
    assert(words_in(words_bytes(w, 8)) =~= w);
}

proof fn word_lies(w: Seq<u64>, n: int, i: int)
    requires
        0 <= i < n,
    ensures
        words_bytes(w, n).len() == 8 * n,
        words_bytes(w, n).subrange(8 * i, 8 * i + 8) == crate::edge::u64_bytes(w[i]),
    decreases n,
{
    words_bytes_length(w, n);
    words_bytes_length(w, n - 1);
    if i < n - 1 {
        word_lies(w, n - 1, i);
        assert(words_bytes(w, n).subrange(8 * i, 8 * i + 8) =~= words_bytes(w, n - 1).subrange(
            8 * i,
            8 * i + 8,
        ));
    } else {
        assert(words_bytes(w, n).subrange(8 * i, 8 * i + 8) =~= crate::edge::u64_bytes(w[i]));
    }
}

/// What a send is about: the endpoint, and the capability to hand over with
/// the rights the sender has on it, or the null object.
pub open spec fn parcel_handles(
    v: GraphView,
    t: NodeId,
    ep_arg: u64,
    cap_arg: u64,
) -> Result<(NodeId, NodeId, Rights), i64> {
    let p = v.process_of(t)->Some_0;
    match v.handle(t, ep_arg, Rights(8)) {
        Err(e) => Err(e),
        Ok(ep) => if cap_arg == 0 {
            Ok((ep, NodeId(0), Rights(0)))
        } else if v.slot_rights(p, crate::syscall::slot_of(ep_arg)) is None {
            Err(E_BADHANDLE)
        } else if !v.slot_rights(p, crate::syscall::slot_of(ep_arg))->Some_0.spec_contains(
            Rights(32),
        ) {
            Err(E_PERM)
        } else {
            match v.resolution(p, crate::syscall::slot_of(cap_arg), Rights(0)) {
                Err(_) => Err(E_BADHANDLE),
                Ok(target) => match v.slot_rights(p, crate::syscall::slot_of(cap_arg)) {
                    None => Err(E_BADHANDLE),
                    Some(rights) => Ok((ep, target, rights)),
                },
            }
        },
    }
}

/// Resolve the handles of a send. Passing a capability needs `Grant` on the
/// endpoint: the right to send is not by itself the right to hand out
/// authority.
fn parcel(g: &Graph, current: NodeId, ep_arg: u64, cap_arg: u64) -> (r: Result<
    (NodeId, NodeId, Rights),
    i64,
>)
    requires
        g.wf(),
    ensures
        r == parcel_handles(g@, current, ep_arg, cap_arg),
{
    let (p, ep): (Ref<Process>, NodeId) = match handle(g, current, ep_arg, Rights::send()) {
        Ok(x) => x,
        Err(e) => return Err(e),
    };
    if cap_arg == 0 {
        return Ok((ep, NodeId::null(), Rights::none()));
    }
    match g.rights_of(p, slot(ep_arg)) {
        Some(x) => {
            if !x.contains(Rights::grant()) {
                return Err(E_PERM);
            }
        },
        None => return Err(E_BADHANDLE),
    }
    let target: NodeId = match g.resolve(p, slot(cap_arg), Rights::none()) {
        Ok(t) => t,
        Err(_) => return Err(E_BADHANDLE),
    };
    match g.rights_of(p, slot(cap_arg)) {
        Some(rights) => Ok((ep, target, rights)),
        None => Err(E_BADHANDLE),
    }
}

/// What a send comes to.
pub open spec fn send_answered(
    g0: Graph,
    g1: Graph,
    cpu0: NodeId,
    t: NodeId,
    ep_arg: u64,
    words: Option<[u64; 8]>,
    cap_arg: u64,
    r: Step<i64>,
) -> bool {
    if g0@.process_of(t) is None {
        r == Step::Done(E_BADHANDLE) && g1 == g0
    } else if words is None {
        r == Step::Done(E_FAULT) && g1 == g0
    } else {
        match parcel_handles(g0@, t, ep_arg, cap_arg) {
            Err(e) => r == Step::Done(e) && g1 == g0,
            Ok((ep, target, rights)) => crate::ipc::sent(
                g0,
                g1@,
                cpu0,
                t,
                ep,
                words->Some_0,
                target,
                rights,
                r,
            ),
        }
    }
}

/// Send a message. The caller hands over the words, or nothing where their
/// buffer is not the process's to read.
pub fn sys_send(
    g: &mut Graph,
    cpu0: NodeId,
    current: NodeId,
    ep_arg: u64,
    words: Option<[u64; 8]>,
    cap_arg: u64,
) -> (r: Step<i64>)
    requires
        old(g).wf(),
        old(g).seq + 5 <= u64::MAX,
    ensures
        final(g).wf(),
        send_answered(*old(g), *final(g), cpu0, current, ep_arg, words, cap_arg, r),
        final(g)@.since(old(g)@),
{
    match process_of(g, current) {
        Some(_) => {},
        None => return Step::Done(E_BADHANDLE),
    }
    let w: [u64; 8] = match words {
        Some(w) => w,
        None => return Step::Done(E_FAULT),
    };
    match parcel(g, current, ep_arg, cap_arg) {
        Ok((ep, target, rights)) => send(g, cpu0, current, ep, w, target, rights),
        Err(e) => Step::Done(e),
    }
}

/// What a receive comes to.
pub open spec fn receive_answered(
    g0: Graph,
    g1: Graph,
    cpu0: NodeId,
    t: NodeId,
    ep_arg: u64,
    ptr: u64,
    r: Step<Received>,
) -> bool {
    if g0@.process_of(t) is None {
        r == Step::Done(Err::<(u32, [u64; 8]), i64>(E_BADHANDLE)) && g1 == g0
    } else if !g0@.range_ok(t, ptr, 64, Prot(2)) {
        r == Step::Done(Err::<(u32, [u64; 8]), i64>(E_FAULT)) && g1 == g0
    } else {
        match g0@.handle(t, ep_arg, Rights(16)) {
            Err(e) => r == Step::Done(Err::<(u32, [u64; 8]), i64>(e)) && g1 == g0,
            Ok(ep) => crate::ipc::received(g0, g1@, cpu0, t, ep, r),
        }
    }
}

/// Receive a message into a buffer the process may write.
pub fn sys_recv(g: &mut Graph, cpu0: NodeId, current: NodeId, ep_arg: u64, ptr: u64) -> (r: Step<
    Received,
>)
    requires
        old(g).wf(),
        old(g).seq + 5 <= u64::MAX,
    ensures
        final(g).wf(),
        receive_answered(*old(g), *final(g), cpu0, current, ep_arg, ptr, r),
        final(g)@.since(old(g)@),
{
    match process_of(g, current) {
        Some(_) => {},
        None => return Step::Done(Err(E_BADHANDLE)),
    }
    if !user_range_ok(g, current, 64, ptr, Prot::write()) {
        return Step::Done(Err(E_FAULT));
    }
    match handle(g, current, ep_arg, Rights::recv()) {
        Ok((_, ep)) => recv(g, cpu0, current, ep),
        Err(e) => Step::Done(Err(e)),
    }
}

// ----------------------------------------------------------------- inspect ---

/// What an inspect comes to, before anything is written.
pub open spec fn inspect_answered(
    g: Graph,
    t: NodeId,
    ptr: u64,
    len: u64,
    r: Result<usize, i64>,
) -> bool {
    let needed = crate::abi::snapshot_bytes(g.live_nodes_total() as int, g.records_total());
    if len < needed {
        r == Err::<usize, i64>(needed as i64)
    } else if !g@.range_ok(t, ptr, needed as u64, Prot(2)) {
        r == Err::<usize, i64>(E_FAULT)
    } else {
        r == Ok::<usize, i64>(needed as usize)
    }
}

/// What an inspect comes to before anything is written: the bytes a snapshot
/// needs where the buffer is too small or may not be written, and otherwise
/// that it can be.
pub fn sys_inspect(g: &Graph, current: NodeId, ptr: u64, len: u64) -> (r: Result<usize, i64>)
    requires
        g.wf(),
    ensures
        inspect_answered(*g, current, ptr, len, r),
{
    let needed: usize = snapshot_size(g);
    proof {
        crate::inspect::snapshot_counts(*g);
    }
    if len < needed as u64 {
        return Err(needed as i64);
    }
    if !user_range_ok(g, current, needed as u64, ptr, Prot::write()) {
        return Err(E_FAULT);
    }
    Ok(needed)
}

} // verus!

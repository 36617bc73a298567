//! Executables, processes, scheduling, messages and system calls.

use bramble::abi::{
    error_name, E_BADCALL, E_BADHANDLE, E_BADIMAGE, E_BADKIND, E_FAULT, E_NOSPACE, E_NOTFOUND,
    E_PERM, SYS_CHECK, SYS_EXIT, SYS_YIELD,
};
use bramble::body::{
    Cpu, Device, DeviceClass, Endpoint, MemoryObject, NodeBody, Process, Rights, Root, Thread,
    ThreadState,
};
use bramble::checker::Checker;
use bramble::edge::{MapFlags, MapsAttr, Prot};
use bramble::elf::{ElfError, Image};
use bramble::frames::{plan, FrameAllocator, Region, RegionKind};
use bramble::graph::{Graph, GraphError, Ref};
use bramble::id::{EdgeKind, NodeId};
use bramble::inspect::snapshot_size;
use bramble::ipc::{recv, recv_finish, send, send_finish, still_blocked, Step};
use bramble::mem::read_u64;
use bramble::paging::translate;
use bramble::proc::{page_prots, page_runs, prot_of, PageRun, SpawnError, MAX_RUNS, USER_STACK_BASE};
use bramble::reaper::drain;
use bramble::sched::control::Queue;
use bramble::sched::{
    adopt_boot_thread, check_stack_canaries, current, exit_current, exit_current_process, init_stack,
    on_tick, plant_canary, process_of, schedule, set_need_resched, spawn_kernel_thread,
    take_need_resched, KSTACK_PAGES, STACK_CANARY,
};
use bramble::spawn::{image_is_sound, prepare, spawn, start, Owner};
use bramble::state::{check_now, sys_check, Inconsistency};
use bramble::syscall::{dispatch, sys_lookup, sys_rights, sys_write, user_range_ok, Call};
use bramble::syscall_objects::{
    read_words, sys_endpoint, sys_grant, sys_inspect, sys_kill, sys_recv, sys_send, sys_spawn,
    sys_start, write_words,
};
use bramble::vm::{create_space, VmError};
use bramble::vm_check::check_page_tables;

const FRAMES: u64 = 1024;
const PAGE: u64 = 4096;
const HHDM: u64 = 0xffff_8000_0000_0000;
const STUB: u64 = 0xffff_ffff_8000_1234;

struct World {
    g: Box<Graph>,
    mem: Vec<u8>,
    frames: Option<FrameAllocator<'static>>,
    kernel: u64,
    root: Ref<Root>,
    cpu: Ref<Cpu>,
}

fn world() -> World {
    let entries = [
        Region { base: 0, length: 16 * PAGE, kind: RegionKind::Reserved },
        Region { base: 16 * PAGE, length: (FRAMES - 16) * PAGE, kind: RegionKind::Usable },
    ];
    let p = plan(&entries).unwrap();
    let words: &'static mut [u64] = Box::leak(vec![0u64; (p.pages * 512) as usize].into_boxed_slice());
    let mut fa = FrameAllocator::new(&entries, p, words);
    let kernel = fa.allocate().unwrap();
    let mut g = Box::new(Graph::empty());
    let root = g.create_root().unwrap();
    let cpu = g.create_under_root(root, Cpu::zero()).unwrap();
    World { g, mem: vec![0u8; (FRAMES * PAGE) as usize], frames: Some(fa), kernel, root, cpu }
}

fn put(b: &mut [u8], at: usize, v: u64, n: usize) {
    b[at..at + n].copy_from_slice(&v.to_le_bytes()[..n]);
}

/// An executable of two segments that share a page: code at 0x401000 and data
/// from 0x401800 on, ten bytes in the file and a page and a half in memory.
fn image() -> Vec<u8> {
    let mut b = vec![0u8; 0x400];
    b[..4].copy_from_slice(&[0x7f, b'E', b'L', b'F']);
    b[4] = 2;
    b[5] = 1;
    put(&mut b, 16, 2, 2);
    put(&mut b, 18, 0x3e, 2);
    put(&mut b, 24, 0x40_1000, 8);
    put(&mut b, 32, 64, 8);
    put(&mut b, 54, 56, 2);
    put(&mut b, 56, 3, 2);
    let headers: [(u64, u64, u64, u64, u64, u64); 3] = [
        (1, 5, 0x200, 0x40_1000, 16, 16),
        (4, 4, 0x200, 0x40_9000, 16, 16),
        (1, 6, 0x300, 0x40_1800, 10, 0x1800),
    ];
    for (i, (kind, flags, offset, vaddr, file, memory)) in headers.iter().enumerate() {
        let at = 64 + 56 * i;
        put(&mut b, at, *kind, 4);
        put(&mut b, at + 4, *flags, 4);
        put(&mut b, at + 8, *offset, 8);
        put(&mut b, at + 16, *vaddr, 8);
        put(&mut b, at + 32, *file, 8);
        put(&mut b, at + 40, *memory, 8);
    }
    for i in 0..16 {
        b[0x200 + i] = 0xc0 + i as u8;
    }
    for i in 0..10 {
        b[0x300 + i] = 0xd0 + i as u8;
    }
    b
}

fn process(w: &mut World) -> (Ref<Process>, Ref<Thread>) {
    let p = w.g.create_under_root(w.root, Process::zero()).unwrap();
    let t = w.g.create_under_process(p, Thread { owner_proc: p.id(), ..Thread::zero() }).unwrap();
    (p, t)
}

fn check(w: &World) {
    assert_eq!(Checker::new().check(&w.g), Ok(()));
    assert_eq!(check_page_tables(&w.g, &w.mem), Ok(()));
}

// --------------------------------------------------------------- executables ---

#[test]
fn an_image_lists_its_loadable_segments() {
    let b = image();
    let i = Image::parse(&b).unwrap();
    assert_eq!(i.entry, 0x40_1000);
    let s = i.segments();
    assert_eq!(s.len(), 2);
    assert_eq!((s[0].vaddr, s[0].flags, s[0].mem_size), (0x40_1000, 5, 16));
    assert_eq!((s[1].vaddr, s[1].flags, s[1].mem_size), (0x40_1800, 6, 0x1800));
    assert_eq!(i.span(), Ok((0x40_1000, 0x40_3000)));
    assert_eq!(i.segment_data(&s[1])[3], 0xd3);
    assert!(image_is_sound(&b));
}

#[test]
fn what_is_no_image_says_why() {
    let parse = |b: &Vec<u8>| Image::parse(b).err();
    assert_eq!(parse(&vec![0; 10]), Some(ElfError::TooSmall));
    assert_eq!(parse(&vec![0; 100]), Some(ElfError::NotAnElf));
    let mut b = image();
    b[18] = 3;
    assert_eq!(parse(&b), Some(ElfError::NotX86_64));
    let mut b = image();
    b[4] = 1;
    assert_eq!(parse(&b), Some(ElfError::NotX86_64));
    let mut b = image();
    b[16] = 3;
    assert_eq!(parse(&b), Some(ElfError::NotExecutable));
    let mut b = image();
    put(&mut b, 32, u64::MAX - 8, 8);
    assert_eq!(parse(&b), Some(ElfError::BadProgramHeaders));
    let mut b = image();
    put(&mut b, 56, 0, 2);
    assert_eq!(Image::parse(&b).unwrap().span(), Err(ElfError::NoLoadableSegments));
}

#[test]
fn a_segment_that_runs_off_the_end_of_memory_is_not_sound() {
    let mut b = image();
    put(&mut b, 64 + 16, u64::MAX - 100, 8);
    assert!(!image_is_sound(&b));
    assert!(image_is_sound(&[1, 2, 3]));
}

#[test]
fn a_page_gets_the_union_of_what_covers_it() {
    let b = image();
    let i = Image::parse(&b).unwrap();
    let prots = page_prots(&i.segments(), 0x40_1000, 2);
    assert_eq!(prot_of(5), Prot::rxu());
    assert_eq!(prot_of(6), Prot::rwu());
    assert_eq!(prots, vec![Prot::rxu().0 | Prot::rwu().0, Prot::rwu().0]);
    assert_eq!(
        page_runs(&prots),
        vec![
            PageRun { start: 0, pages: 1, prot: prots[0] },
            PageRun { start: 1, pages: 1, prot: prots[1] },
        ]
    );
    assert_eq!(page_runs(&vec![0, 3, 3, 0, 5]).len(), 2);
}

#[test]
fn reasons_are_spelled_out() {
    assert_eq!(SpawnError::ImageTooLarge.describe().is_empty(), false);
    assert_eq!(
        SpawnError::Graph(GraphError::NoFreeSlot).describe(),
        "graph: the handle table is full"
    );
    assert_eq!(error_name(E_PERM), "missing right");
    assert_eq!(error_name(-99), "unknown error");
}

// ------------------------------------------------------------------- spawning ---

#[test]
fn a_process_is_made_from_its_image_and_runs() {
    let mut w = world();
    let dev = w.g.create_under_root(w.root, Device::zero()).unwrap();
    let grants = vec![(dev.id(), Rights::write())];
    let b = image();
    let (p, t) = prepare(
        &mut w.g, &mut w.mem, &mut w.frames, w.kernel, HHDM, STUB, Owner::Root(w.root), &b, &grants,
    )
    .unwrap();
    check(&w);
    // It was not started.
    assert_eq!(w.g.pick_next(w.cpu), None);
    assert_eq!(w.g.body(t).unwrap().state, ThreadState::Inert);
    assert_eq!(w.g.body(t).unwrap().user_entry, 0x40_1000);
    assert_eq!(w.g.resolve(p, 1, Rights::write()), Ok(dev.id()));
    let space = w.g.space_of(t).unwrap();
    let pml4 = w.g.body(space).unwrap().pml4_phys;
    assert_eq!(w.g.body(t).unwrap().cr3, pml4);
    // The contents are where the addresses say, the rest is zero.
    let (f, _) = translate(&w.mem, pml4, 0x40_1000).unwrap();
    assert_eq!(w.mem[f as usize + 5], 0xc5);
    assert_eq!(w.mem[f as usize + 0x809], 0xd9);
    assert_eq!(w.mem[f as usize + 0x80a], 0);
    assert!(translate(&w.mem, pml4, 0x40_2000).is_some());
    assert!(translate(&w.mem, pml4, USER_STACK_BASE + 3 * PAGE).is_some());
    assert!(translate(&w.mem, pml4, USER_STACK_BASE + 4 * PAGE).is_none());
    // Its kernel stack enters the stub.
    let th = *w.g.body(t).unwrap();
    let at = (th.saved_rsp - HHDM) as usize;
    assert_eq!(read_u64(&w.mem, at + 48), 0x202);
    assert_eq!(read_u64(&w.mem, at + 56), STUB);
    let bottom = (th.kstack_top - HHDM) as usize - KSTACK_PAGES as usize * 4096;
    assert_eq!(read_u64(&w.mem, bottom), STACK_CANARY);
    start(&mut w.g, w.cpu.id(), p).unwrap();
    assert_eq!(w.g.pick_next(w.cpu), Some(t));
    let d = schedule(&mut w.g, w.cpu.id(), w.kernel).unwrap();
    assert_eq!((d.new_rsp, d.cr3, d.kernel_rsp), (th.saved_rsp, pml4, th.kstack_top));
    assert_eq!(d.save, None);
    assert_eq!(current(&w.g, w.cpu.id()), t.id());
    assert_eq!(process_of(&w.g, t.id()), Some(p));
    check(&w);
}

#[test]
fn a_process_that_exits_gives_everything_back() {
    let mut w = world();
    let before = w.frames.as_ref().unwrap().free_frames();
    let nodes = w.g.node_count();
    let b = image();
    let p = spawn(
        &mut w.g, &mut w.mem, &mut w.frames, w.kernel, HHDM, STUB, w.cpu.id(), Owner::Root(w.root),
        &b, &Vec::new(),
    )
    .unwrap();
    assert!(schedule(&mut w.g, w.cpu.id(), w.kernel).is_some());
    exit_current_process(&mut w.g, w.cpu.id(), w.kernel, 7);
    assert!(w.g.is_dying(p.id()));
    let r = drain(&mut w.g, &mut w.mem, &mut w.frames);
    assert!(r.nodes_freed >= 4);
    assert_eq!(r.tables_returned, 1);
    assert!(!w.g.is_live(p.id()));
    assert_eq!(w.g.node_count(), nodes);
    assert_eq!(w.frames.as_ref().unwrap().free_frames(), before);
    check(&w);
}

#[test]
fn spawning_what_is_no_image_is_an_error() {
    let mut w = world();
    let r = spawn(
        &mut w.g, &mut w.mem, &mut w.frames, w.kernel, HHDM, STUB, w.cpu.id(), Owner::Root(w.root),
        &[0; 100], &Vec::new(),
    );
    assert_eq!(r.unwrap_err(), SpawnError::Elf(ElfError::NotAnElf));
    let mut none: Option<FrameAllocator<'static>> = None;
    let r = spawn(
        &mut w.g, &mut w.mem, &mut none, w.kernel, HHDM, STUB, w.cpu.id(), Owner::Root(w.root),
        &image(), &Vec::new(),
    );
    assert_eq!(r.unwrap_err(), SpawnError::Vm(VmError::NoAllocator));
}

/// An executable of one-page segments, by turns code and data.
fn striped(n: usize) -> Vec<u8> {
    let mut b = image();
    b.resize(64 + 56 * n + 16, 0);
    put(&mut b, 56, n as u64, 2);
    let end = b.len() as u64 - 16;
    for i in 0..n {
        let at = 64 + 56 * i;
        put(&mut b, at, 1, 4);
        put(&mut b, at + 4, 5 + (i as u64 & 1), 4);
        put(&mut b, at + 8, end, 8);
        put(&mut b, at + 16, 0x40_1000 + i as u64 * PAGE, 8);
        put(&mut b, at + 32, 16, 8);
        put(&mut b, at + 40, 16, 8);
    }
    b
}

#[test]
fn an_image_is_mapped_in_a_bounded_number_of_runs() {
    let mut w = world();
    let r = spawn(
        &mut w.g, &mut w.mem, &mut w.frames, w.kernel, HHDM, STUB, w.cpu.id(), Owner::Root(w.root),
        &striped(MAX_RUNS + 1), &Vec::new(),
    );
    assert_eq!(r.unwrap_err(), SpawnError::TooManyRuns);
    drain(&mut w.g, &mut w.mem, &mut w.frames);
    check(&w);
    let r = spawn(
        &mut w.g, &mut w.mem, &mut w.frames, w.kernel, HHDM, STUB, w.cpu.id(), Owner::Root(w.root),
        &striped(MAX_RUNS), &Vec::new(),
    );
    assert!(r.is_ok());
    check(&w);
}

// ------------------------------------------------------------------ scheduling ---

#[test]
fn stacks_are_laid_out_and_watched() {
    let mut mem = vec![0xeeu8; 16 * 4096];
    let top = HHDM + 10 * PAGE;
    let rsp = init_stack(&mut mem, HHDM, top, 0x1122_3344);
    assert_eq!(rsp, top - 72);
    let at = (rsp - HHDM) as usize;
    assert_eq!(read_u64(&mem, at), 0);
    assert_eq!(read_u64(&mem, at + 40), 0);
    assert_eq!(read_u64(&mem, at + 48), 0x202);
    assert_eq!(read_u64(&mem, at + 56), 0x1122_3344);
    assert_eq!(read_u64(&mem, at + 64), 0);
    plant_canary(&mut mem, HHDM, top);
    assert_eq!(read_u64(&mem, 2 * 4096), STACK_CANARY);
}

#[test]
fn an_overrun_stack_is_reported() {
    let mut w = world();
    let t = spawn_kernel_thread(
        &mut w.g, &mut w.mem, &mut w.frames, HHDM, w.cpu.id(), w.root, 0xabcd,
    )
    .unwrap();
    assert_eq!(check_stack_canaries(&w.g, &w.mem, HHDM), Ok(()));
    let mut c = Checker::new();
    assert_eq!(check_now(&mut c, &w.g, &w.mem, HHDM), Ok(()));
    assert_eq!(sys_check(&mut c, &w.g, &w.mem, HHDM), 0);
    let bottom = (w.g.body(t).unwrap().kstack_top - HHDM) as usize - KSTACK_PAGES as usize * 4096;
    w.mem[bottom] ^= 1;
    assert_eq!(check_stack_canaries(&w.g, &w.mem, HHDM), Err(t.id()));
    assert_eq!(
        check_now(&mut c, &w.g, &w.mem, HHDM),
        Err(Inconsistency::StackOverflow(t.id()))
    );
    assert!(sys_check(&mut c, &w.g, &w.mem, HHDM) < 0);
}

#[test]
fn threads_take_turns() {
    let mut w = world();
    let boot = adopt_boot_thread(&mut w.g, w.cpu.id(), w.root).unwrap();
    assert_eq!(current(&w.g, w.cpu.id()), boot.id());
    let mut ts = Vec::new();
    for i in 0..3u64 {
        ts.push(
            spawn_kernel_thread(
                &mut w.g, &mut w.mem, &mut w.frames, HHDM, w.cpu.id(), w.root, 0x1000 + i,
            )
            .unwrap(),
        );
    }
    let mut seen = Vec::new();
    for _ in 0..8 {
        let d = schedule(&mut w.g, w.cpu.id(), w.kernel).unwrap();
        // A thread without a space runs on the kernel's tables.
        assert_eq!(d.cr3, w.kernel);
        seen.push(current(&w.g, w.cpu.id()));
    }
    let order = [ts[0].id(), ts[1].id(), ts[2].id(), boot.id()];
    assert_eq!(&seen[..4], &order);
    assert_eq!(&seen[4..], &order);
    check(&w);
    // A thread that exits is not scheduled again.
    let gone = current(&w.g, w.cpu.id());
    assert!(exit_current(&mut w.g, w.cpu.id(), w.kernel).is_some());
    assert!(!w.g.is_live(gone) || w.g.is_dying(gone));
    for _ in 0..4 {
        schedule(&mut w.g, w.cpu.id(), w.kernel);
        assert_ne!(current(&w.g, w.cpu.id()), gone);
    }
}

#[test]
fn with_nobody_waiting_nothing_is_switched() {
    let mut w = world();
    assert_eq!(schedule(&mut w.g, w.cpu.id(), w.kernel).is_none(), true);
    assert!(schedule(&mut w.g, NodeId::null(), w.kernel).is_none());
    assert!(current(&w.g, NodeId::null()).is_null());
}

#[test]
fn a_tick_asks_for_a_switch_and_is_counted() {
    let mut w = world();
    let mut pending = false;
    on_tick(&mut w.g, &mut pending);
    assert!(take_need_resched(&mut pending));
    assert!(!take_need_resched(&mut pending));
    set_need_resched(&mut pending);
    assert!(pending);
    let root = w.g.root().unwrap();
    assert_eq!(w.g.body(root).unwrap().ticks, 1);
}

#[test]
fn the_control_queue_rotates() {
    let mut q = Queue::new();
    assert_eq!(q.peek(), None);
    assert!(!q.rotate());
    q.push(3);
    q.push(5);
    q.push(9);
    assert_eq!(q.peek(), Some(3));
    assert!(q.rotate());
    assert_eq!(q.peek(), Some(5));
    assert!(q.rotate());
    assert!(q.rotate());
    assert_eq!(q.peek(), Some(3));
}

// -------------------------------------------------------------------- messages ---

#[test]
fn a_waiting_receiver_gets_the_words_and_the_capability() {
    let mut w = world();
    let (pa, a) = process(&mut w);
    let (pb, b) = process(&mut w);
    let ep = w.g.create_under_process(pa, Endpoint::zero()).unwrap();
    let obj = w.g.create_under_process(pa, MemoryObject::zero()).unwrap();
    assert_eq!(recv(&mut w.g, w.cpu.id(), b.id(), ep.id()), Step::Blocked);
    assert!(still_blocked(&w.g, b));
    let words = [1, 2, 3, 4, 5, 6, 7, 8];
    let r = send(&mut w.g, w.cpu.id(), a.id(), ep.id(), words, obj.id(), Rights::read());
    assert_eq!(r, Step::Done(0));
    assert!(!still_blocked(&w.g, b));
    let (slot, got) = recv_finish(&mut w.g, b).unwrap();
    assert_eq!(got, words);
    assert_eq!(w.g.resolve(pb, slot, Rights::read()), Ok(obj.id()));
    assert!(matches!(
        w.g.resolve(pb, slot, Rights::write()),
        Err(GraphError::MissingRights { .. })
    ));
    assert_eq!(w.g.pick_next(w.cpu), Some(b));
    check(&w);
}

#[test]
fn a_waiting_sender_is_heard_first_come_first_served() {
    let mut w = world();
    let (pa, a) = process(&mut w);
    let (_, b) = process(&mut w);
    let (_, c) = process(&mut w);
    let ep = w.g.create_under_process(pa, Endpoint::zero()).unwrap();
    let none = Rights::none();
    let one = [1; 8];
    let two = [2; 8];
    assert_eq!(send(&mut w.g, w.cpu.id(), a.id(), ep.id(), one, NodeId::null(), none), Step::Blocked);
    assert_eq!(send(&mut w.g, w.cpu.id(), b.id(), ep.id(), two, NodeId::null(), none), Step::Blocked);
    assert_eq!(recv(&mut w.g, w.cpu.id(), c.id(), ep.id()), Step::Done(Ok((0, one))));
    assert_eq!(send_finish(&mut w.g, a), 0);
    assert_eq!(recv(&mut w.g, w.cpu.id(), c.id(), ep.id()), Step::Done(Ok((0, two))));
    check(&w);
}

#[test]
fn destroying_an_endpoint_wakes_its_waiters_with_an_error() {
    let mut w = world();
    let (pa, _) = process(&mut w);
    let (_, b) = process(&mut w);
    let ep = w.g.create_under_process(pa, Endpoint::zero()).unwrap();
    assert_eq!(recv(&mut w.g, w.cpu.id(), b.id(), ep.id()), Step::Blocked);
    w.g.begin_delete(ep.id()).unwrap();
    let r = drain(&mut w.g, &mut w.mem, &mut w.frames);
    assert_eq!((r.waits_aborted, r.last_aborted), (1, b.id()));
    assert!(recv_finish(&mut w.g, b).is_err());
    assert_eq!(
        send(&mut w.g, w.cpu.id(), b.id(), ep.id(), [0; 8], NodeId::null(), Rights::none()),
        Step::Done(E_BADHANDLE)
    );
}

#[test]
fn words_are_read_back_as_written() {
    let words = [1, u64::MAX, 0x0123_4567_89ab_cdef, 0, 5, 6, 7, 8];
    let mut bytes = [0u8; 64];
    write_words(&mut bytes, &words);
    assert_eq!(bytes[16], 0xef);
    assert_eq!(read_words(&bytes), words);
}

// ------------------------------------------------------------------ system calls ---

#[test]
fn numbers_name_calls() {
    assert_eq!(dispatch(SYS_EXIT), Ok(Call::Exit));
    assert_eq!(dispatch(SYS_YIELD), Ok(Call::Yield));
    assert_eq!(dispatch(SYS_CHECK), Ok(Call::Check));
    assert_eq!(dispatch(14), Err(E_BADCALL));
    assert_eq!(dispatch(u64::MAX), Err(E_BADCALL));
}

#[test]
fn a_pointer_has_to_be_mapped_for_what_it_is_used_for() {
    let mut w = world();
    let (p, t) = process(&mut w);
    let space = create_space(&mut w.g, &mut w.mem, &mut w.frames, w.kernel, w.root).unwrap();
    w.g.link_in_space(t, space).unwrap();
    let obj = bramble::vm::alloc_object_for(&mut w.g, &mut w.frames, p, 4).unwrap();
    let a = |vaddr, off_pages, prot| MapsAttr {
        vaddr,
        off_pages,
        len_pages: 2,
        prot,
        flags: MapFlags::none(),
    };
    bramble::vm::map(&mut w.g, &mut w.mem, &mut w.frames, space, obj, a(0x40_0000, 0, Prot::rwu())).unwrap();
    bramble::vm::map(&mut w.g, &mut w.mem, &mut w.frames, space, obj, a(0x40_2000, 2, Prot::rxu())).unwrap();
    let user = Prot::user();
    let ok = |len, addr, need| user_range_ok(&w.g, t.id(), len, addr, need);
    assert!(ok(8, 0x40_0000, user));
    // Two mappings side by side serve one range.
    assert!(ok(0x4000, 0x40_0000, user));
    assert!(!ok(0x4001, 0x40_0000, user));
    assert!(!ok(8, 0x3f_fffc, user));
    assert!(ok(8, 0x40_1ff8, Prot(user.0 | Prot::write().0)));
    assert!(!ok(16, 0x40_1ff8, Prot(user.0 | Prot::write().0)));
    assert!(ok(0, 0x1234, user));
    assert!(!ok(8, HHDM, user));
    assert!(!ok(u64::MAX, 0x40_0000, user));
}

#[test]
fn writing_takes_a_right_and_a_pointer() {
    let mut w = world();
    let (p, t) = process(&mut w);
    let dev = w
        .g
        .create_under_root(
            w.root,
            Device { class: DeviceClass::SerialConsole, io_base: 0x3f8, ..Device::zero() },
        )
        .unwrap();
    let yes = w.g.grant(p, dev, Rights::write()).unwrap() as u64;
    let no = w.g.grant(p, dev, Rights::read()).unwrap() as u64;
    let ep = w.g.create_under_process(p, Endpoint::zero()).unwrap();
    let other = w.g.grant(p, ep, Rights::write()).unwrap() as u64;
    assert_eq!(sys_write(&w.g, t.id(), no, 0, 0), Err(E_PERM));
    assert_eq!(sys_write(&w.g, t.id(), 77, 0, 0), Err(E_BADHANDLE));
    // Not a device, so nothing to write to.
    assert_eq!(sys_write(&w.g, t.id(), other, 0, 0), Err(E_BADHANDLE));
    assert_eq!(sys_write(&w.g, t.id(), yes, 0x1000, 8), Err(E_FAULT));
    assert_eq!(sys_write(&w.g, t.id(), yes, 0, 0), Ok(0x3f8));
    assert_eq!(sys_rights(&w.g, t.id(), yes), Rights::write().0 as i64);
    assert_eq!(sys_rights(&w.g, t.id(), 99), E_BADHANDLE);
}

#[test]
fn a_name_looked_up_becomes_a_handle() {
    let mut w = world();
    let (p, t) = process(&mut w);
    let dev = w.g.create_under_root(w.root, Device::zero()).unwrap();
    w.g.link_named(w.root, dev, "console").unwrap();
    // Naming takes a capability to the root that carries the right to.
    assert_eq!(sys_lookup(&mut w.g, t.id(), Some(b"console")), E_PERM);
    w.g.grant(p, w.root, Rights::lookup()).unwrap();
    let slot = sys_lookup(&mut w.g, t.id(), Some(b"console"));
    assert!(slot > 0);
    assert_eq!(w.g.resolve(p, slot as u32, Rights::write()), Ok(dev.id()));
    assert!(w.g.resolve(p, slot as u32, Rights::grant()).is_err());
    // A memory object comes readable only.
    let m = w.g.create_under_root(w.root, MemoryObject::zero()).unwrap();
    w.g.link_named(w.root, m, "image").unwrap();
    let slot = sys_lookup(&mut w.g, t.id(), Some(b"image"));
    assert_eq!(w.g.rights_of(p, slot as u32), Some(Rights::read()));
    assert_eq!(sys_lookup(&mut w.g, t.id(), Some(b"nope")), E_NOTFOUND);
    assert_eq!(sys_lookup(&mut w.g, t.id(), None), E_FAULT);
}

#[test]
fn a_process_makes_grants_starts_and_kills_another() {
    let mut w = world();
    let (p, t) = process(&mut w);
    // An image in a memory object of the caller's.
    let obj = bramble::vm::alloc_object_for(&mut w.g, &mut w.frames, p, 1).unwrap();
    let at = w.g.body(obj).unwrap().phys_base as usize;
    let b = image();
    w.mem[at..at + b.len()].copy_from_slice(&b);
    let image_slot = w.g.grant(p, obj, Rights::read()).unwrap() as u64;
    let child = sys_spawn(
        &mut w.g, &mut w.mem, &mut w.frames, w.kernel, HHDM, STUB, t.id(), image_slot,
    );
    assert!(child > 0);
    check(&w);
    let c = w.g.resolve(p, child as u32, Rights::none()).unwrap();
    assert_eq!(w.g.owner(c), p.id());
    let ep = sys_endpoint(&mut w.g, t.id());
    assert!(ep > 0);
    let landed = sys_grant(&mut w.g, t.id(), child as u64, ep as u64, Rights::send().0 as u64);
    assert!(landed > 0);
    let cp = w.g.typed::<Process>(c).unwrap();
    assert_eq!(w.g.rights_of(cp, landed as u32), Some(Rights::send()));
    assert_eq!(w.g.pick_next(w.cpu), None);
    assert_eq!(sys_start(&mut w.g, w.cpu.id(), t.id(), child as u64), 0);
    assert!(w.g.pick_next(w.cpu).is_some());
    assert_eq!(sys_kill(&mut w.g, t.id(), ep as u64), E_BADKIND);
    assert_eq!(sys_kill(&mut w.g, t.id(), child as u64), 0);
    assert!(w.g.is_dying(c));
    assert_eq!(sys_kill(&mut w.g, t.id(), child as u64), E_BADHANDLE);
    drain(&mut w.g, &mut w.mem, &mut w.frames);
    assert!(!w.g.is_live(c));
    check(&w);
    // No image behind this one.
    w.mem[at] = 0;
    let r = sys_spawn(
        &mut w.g, &mut w.mem, &mut w.frames, w.kernel, HHDM, STUB, t.id(), image_slot,
    );
    assert_eq!(r, E_BADIMAGE);
}

#[test]
fn a_full_handle_table_takes_no_more() {
    let mut w = world();
    let (p, t) = process(&mut w);
    let ep = w.g.create_under_process(p, Endpoint::zero()).unwrap();
    while w.g.grant(p, ep, Rights::send()).is_ok() {}
    assert_eq!(sys_endpoint(&mut w.g, t.id()), E_NOSPACE);
    assert_eq!(w.g.revoke(p, 3), Ok(()));
    assert_eq!(sys_endpoint(&mut w.g, t.id()), 3);
    check(&w);
}

#[test]
fn the_graph_is_consistent_between_any_two_calls() {
    let mut w = world();
    let cpu = w.cpu.id();
    let (pa, a) = process(&mut w);
    let (pb, b) = process(&mut w);
    check(&w);
    let slot = sys_endpoint(&mut w.g, a.id()) as u64;
    check(&w);
    let child = w.g.grant(pa, pb, Rights::all()).unwrap() as u64;
    assert!(sys_grant(&mut w.g, a.id(), child, slot, Rights::recv().0 as u64) > 0);
    check(&w);
    assert_eq!(sys_start(&mut w.g, cpu, a.id(), child), 0);
    check(&w);
    w.g.make_ready(w.cpu, a).unwrap();
    assert!(schedule(&mut w.g, cpu, w.kernel).is_some());
    check(&w);
    assert_eq!(current(&w.g, cpu), b.id());
    assert_eq!(sys_send(&mut w.g, cpu, a.id(), slot, Some([1; 8]), 0), Step::Blocked);
    check(&w);
    let ep = w.g.resolve(pa, slot as u32, Rights::none()).unwrap();
    assert_eq!(recv(&mut w.g, cpu, b.id(), ep), Step::Done(Ok((0, [1; 8]))));
    check(&w);
    assert_eq!(send_finish(&mut w.g, a), 0);
    check(&w);
    assert!(exit_current_process(&mut w.g, cpu, w.kernel, 3).is_some());
    check(&w);
    assert_eq!(current(&w.g, cpu), a.id());
    assert!(w.g.is_dying(pb.id()));
    drain(&mut w.g, &mut w.mem, &mut w.frames);
    check(&w);
    assert!(!w.g.is_live(pb.id()));
}

#[test]
fn sending_and_receiving_go_through_handles() {
    let mut w = world();
    let (pa, a) = process(&mut w);
    let (pb, b) = process(&mut w);
    let ep = w.g.create_under_process(pa, Endpoint::zero()).unwrap();
    let send_slot = w.g.grant(pa, ep, Rights::send()).unwrap() as u64;
    let recv_slot = w.g.grant(pb, ep, Rights::recv()).unwrap() as u64;
    let words = Some([9; 8]);
    assert_eq!(sys_send(&mut w.g, w.cpu.id(), a.id(), 88, words, 0), Step::Done(E_BADHANDLE));
    assert_eq!(sys_send(&mut w.g, w.cpu.id(), b.id(), recv_slot, words, 0), Step::Done(E_PERM));
    assert_eq!(sys_send(&mut w.g, w.cpu.id(), a.id(), send_slot, None, 0), Step::Done(E_FAULT));
    assert_eq!(sys_send(&mut w.g, w.cpu.id(), a.id(), send_slot, words, 0), Step::Blocked);
    // The receiver's buffer has to be there before anything is taken.
    assert_eq!(sys_recv(&mut w.g, w.cpu.id(), b.id(), recv_slot, 0x1000), Step::Done(Err(E_FAULT)));
    assert!(still_blocked(&w.g, a));
    assert_eq!(w.g.in_edges(ep.id(), EdgeKind::Waiting).count(), 1);
}

#[test]
fn inspecting_needs_room() {
    let mut w = world();
    let (_, t) = process(&mut w);
    assert_eq!(sys_inspect(&w.g, t.id(), 0x1000, 1 << 20), Err(E_FAULT));
    let needed = snapshot_size(&w.g) as i64;
    assert_eq!(sys_inspect(&w.g, t.id(), 0, 0), Err(needed));
}

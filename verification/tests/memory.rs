//! Frames, page tables, address spaces, and the comparison between the tables
//! and the graph, on a small flat memory.

use bramble::body::{AddressSpace, MemFlags, MemoryObject, NodeBody, Process, Root, Thread};
use bramble::checker::Checker;
use bramble::edge::{MapFlags, MapsAttr, Prot};
use bramble::frames::{plan, FrameAllocator, Region, RegionKind};
use bramble::graph::{Graph, GraphError, Ref};
use bramble::id::{EdgeId, EdgeKind, NodeId};
use bramble::mem::{read_u64, write_u64};
use bramble::paging::{
    flags_match, index, map_pages, poke_entry, prot_to_flags, translate, unmap_pages, MapError,
};
use bramble::reap::Reclaim;
use bramble::reaper::{drain, frame_entry, step, ReapReport};
use bramble::spaces::{free_user_tables, new_address_space, walk_user_pages};
use bramble::vm::{alloc_object, alloc_object_for, create_space, create_space_for, unmap, VmError};
use bramble::vm_check::{check_page_tables, fault_in, I5};

const FRAMES: u64 = 512;
const PAGE: u64 = 4096;

fn region(base: u64, length: u64, kind: RegionKind) -> Region {
    Region { base, length, kind }
}

/// Memory of 512 frames, an allocator over all but the first sixteen, and an
/// empty root for the kernel.
fn machine() -> (Vec<u8>, Option<FrameAllocator<'static>>, u64) {
    let entries = [
        region(0, 16 * PAGE, RegionKind::Reserved),
        region(16 * PAGE, (FRAMES - 16) * PAGE, RegionKind::Usable),
    ];
    let p = plan(&entries).unwrap();
    let words: &'static mut [u64] = Box::leak(vec![0u64; (p.pages * 512) as usize].into_boxed_slice());
    let mut fa = FrameAllocator::new(&entries, p, words);
    let mem = vec![0u8; (FRAMES * PAGE) as usize];
    let kernel = fa.allocate().unwrap();
    (mem, Some(fa), kernel)
}

fn world() -> (Box<Graph>, Ref<Root>, Ref<Process>) {
    let mut g = Box::new(Graph::empty());
    let root = g.create_root().unwrap();
    let p = g.create_under_root(root, Process::zero()).unwrap();
    (g, root, p)
}

fn attr(vaddr: u64, off_pages: u32, len_pages: u32, prot: Prot) -> MapsAttr {
    MapsAttr { vaddr, off_pages, len_pages, prot, flags: MapFlags::none() }
}

fn lazily(vaddr: u64, len_pages: u32, prot: Prot) -> MapsAttr {
    MapsAttr { vaddr, off_pages: 0, len_pages, prot, flags: MapFlags::lazy() }
}

fn free(frames: &Option<FrameAllocator<'static>>) -> usize {
    frames.as_ref().unwrap().free_frames()
}

// ------------------------------------------------------------------- frames ---

#[test]
fn a_bitmap_is_planned_in_the_first_region_that_holds_it() {
    let entries = [
        region(0x1000, 0x800, RegionKind::Usable),
        region(0x10_0000, 0x4000, RegionKind::Reserved),
        region(0x20_0000, 0x10_0000, RegionKind::Usable),
    ];
    let p = plan(&entries).unwrap();
    assert_eq!(p.total_frames, 0x300);
    assert_eq!(p.pages, 1);
    assert_eq!(p.phys, 0x20_0000);
    assert!(plan(&[]).is_none());
    assert!(plan(&[region(0x1000, 0x1000, RegionKind::Reserved)]).is_none());
}

#[test]
fn only_usable_frames_are_free_and_the_bitmap_is_not() {
    let entries = [
        region(0, 4 * PAGE, RegionKind::Usable),
        region(4 * PAGE, 4 * PAGE, RegionKind::Reserved),
        region(8 * PAGE, 8 * PAGE, RegionKind::Usable),
    ];
    // The bitmap cannot start at zero, where the first region does.
    assert!(plan(&entries).is_none());
    let entries = [
        region(PAGE, 3 * PAGE, RegionKind::Usable),
        region(4 * PAGE, 4 * PAGE, RegionKind::Reserved),
        region(8 * PAGE, 8 * PAGE, RegionKind::Usable),
    ];
    let p = plan(&entries).unwrap();
    assert_eq!((p.phys, p.pages, p.total_frames), (PAGE, 1, 16));
    let mut words = vec![0u64; 512];
    let mut fa = FrameAllocator::new(&entries, p, &mut words);
    assert_eq!(fa.total_frames(), 16);
    assert_eq!(fa.free_frames(), 10);
    assert_eq!(fa.used_frames(), 6);
    assert_eq!(fa.bitmap_region().phys, PAGE);
    assert_eq!(fa.bitmap_region().pages, 1);
    let mut got = Vec::new();
    while let Some(a) = fa.allocate() {
        got.push(a / PAGE);
    }
    assert_eq!(got, vec![2, 3, 8, 9, 10, 11, 12, 13, 14, 15]);
    assert_eq!(fa.free_frames(), 0);
}

#[test]
fn frames_taken_and_given_back_are_free_again() {
    let (_mem, mut frames, _) = machine();
    let fa = frames.as_mut().unwrap();
    let before = fa.free_frames();
    let a = fa.alloc_contiguous(7).unwrap();
    assert_eq!(a % PAGE, 0);
    assert_eq!(fa.free_frames(), before - 7);
    fa.free_contiguous(a, 7);
    assert_eq!(fa.free_frames(), before);
    // Giving back what is free already changes nothing.
    fa.free_contiguous(a, 7);
    assert_eq!(fa.free_frames(), before);
    assert_eq!(fa.alloc_contiguous(7), Some(a));
}

#[test]
fn contiguous_frames_skip_what_is_taken() {
    let (_mem, mut frames, _) = machine();
    let fa = frames.as_mut().unwrap();
    let a = fa.alloc_contiguous(4).unwrap();
    let b = fa.alloc_contiguous(4).unwrap();
    assert_eq!(b, a + 4 * PAGE);
    fa.free_contiguous(a, 4);
    // Five do not fit in the gap of four, so they come after.
    let c = fa.alloc_contiguous(5).unwrap();
    assert_eq!(c, b + 4 * PAGE);
    assert_eq!(fa.alloc_contiguous(0), None);
    assert_eq!(fa.alloc_contiguous(1_000_000), None);
}

#[test]
fn region_kinds_have_names() {
    assert_eq!(RegionKind::Usable.name(), "usable");
    assert_eq!(RegionKind::AcpiNvs.name(), "acpi-nvs");
    assert_eq!(RegionKind::ExecutableAndModules.name(), "kernel+modules");
    assert_eq!(RegionKind::Unknown.name(), "unknown");
}

// ------------------------------------------------------------------- tables ---

#[test]
fn an_address_selects_one_entry_per_level() {
    let v = (1u64 << 39) | (2 << 30) | (3 << 21) | (4 << 12) | 0xabc;
    assert_eq!((index(v, 3), index(v, 2), index(v, 1), index(v, 0)), (1, 2, 3, 4));
    assert_eq!(index(0xffff_8000_0000_0000, 3), 256);
}

#[test]
fn entry_bits_follow_the_protection() {
    assert_eq!(prot_to_flags(Prot::rwu()), 0x8000_0000_0000_0007);
    assert_eq!(prot_to_flags(Prot::rxu()), 0x5);
    assert_eq!(prot_to_flags(Prot::read()), 0x8000_0000_0000_0001);
    assert!(flags_match(0x1000 | prot_to_flags(Prot::rwu()), Prot::rwu()));
    assert!(!flags_match(0x1000 | prot_to_flags(Prot::rwu()), Prot::rxu()));
    assert!(!flags_match(0x1000 | prot_to_flags(Prot::rxu()), Prot::rwu()));
}

#[test]
fn pages_mapped_translate_and_pages_unmapped_do_not() {
    let (mut mem, mut frames, kernel) = machine();
    let fa = frames.as_mut().unwrap();
    let before = fa.free_frames();
    map_pages(&mut mem, kernel, 0x40_0000, 0x9000, 3, Prot::rwu(), fa).unwrap();
    // Three levels below the root.
    assert_eq!(fa.free_frames(), before - 3);
    for i in 0..3 {
        let (frame, entry) = translate(&mem, kernel, 0x40_0000 + i * PAGE).unwrap();
        assert_eq!(frame, 0x9000 + i * PAGE);
        assert!(flags_match(entry, Prot::rwu()));
    }
    assert_eq!(translate(&mem, kernel, 0x40_3000), None);
    assert_eq!(
        map_pages(&mut mem, kernel, 0x3f_f000, 0xa000, 2, Prot::rwu(), fa),
        Err(MapError::AlreadyMapped(0x40_0000))
    );
    // What was mapped before the failure stays; the caller takes it out.
    assert_eq!(translate(&mem, kernel, 0x3f_f000).unwrap().0, 0xa000);
    unmap_pages(&mut mem, kernel, 0x3f_f000, 4);
    for i in 0..4 {
        assert_eq!(translate(&mem, kernel, 0x3f_f000 + i * PAGE), None);
    }
}

#[test]
fn mapping_without_frames_for_tables_says_so() {
    let (mut mem, mut frames, kernel) = machine();
    let fa = frames.as_mut().unwrap();
    while fa.free_frames() > 2 {
        fa.allocate().unwrap();
    }
    assert_eq!(
        map_pages(&mut mem, kernel, 0x40_0000, 0x9000, 1, Prot::rwu(), fa),
        Err(MapError::OutOfFrames)
    );
    assert_eq!(translate(&mem, kernel, 0x40_0000), None);
}

#[test]
fn walking_lists_the_user_half_in_order() {
    let (mut mem, mut frames, kernel) = machine();
    let fa = frames.as_mut().unwrap();
    map_pages(&mut mem, kernel, 0x7000_0000_0000, 0x3000, 1, Prot::rwu(), fa).unwrap();
    map_pages(&mut mem, kernel, 0x40_0000, 0x5000, 2, Prot::rxu(), fa).unwrap();
    map_pages(&mut mem, kernel, 0xffff_8000_0000_0000, 0x1000, 1, Prot::rw(), fa).unwrap();
    let seen: Vec<(u64, u64)> =
        walk_user_pages(&mem, kernel).into_iter().map(|(v, e)| (v, e & 0x000f_ffff_ffff_f000)).collect();
    assert_eq!(
        seen,
        vec![(0x40_0000, 0x5000), (0x40_1000, 0x6000), (0x7000_0000_0000, 0x3000)]
    );
}

#[test]
fn a_new_space_shares_the_kernel_half_and_gives_its_tables_back() {
    let (mut mem, mut frames, kernel) = machine();
    let fa = frames.as_mut().unwrap();
    map_pages(&mut mem, kernel, 0xffff_8000_0000_0000, 0x1000, 1, Prot::rw(), fa).unwrap();
    map_pages(&mut mem, kernel, 0x40_0000, 0x5000, 1, Prot::rwu(), fa).unwrap();
    let before = fa.free_frames();
    let root = new_address_space(&mut mem, kernel, fa).unwrap();
    assert_eq!(translate(&mem, root, 0xffff_8000_0000_0000).unwrap().0, 0x1000);
    assert_eq!(translate(&mem, root, 0x40_0000), None);
    map_pages(&mut mem, root, 0x50_0000, 0x6000, 1, Prot::rwu(), fa).unwrap();
    assert_eq!(fa.free_frames(), before - 4);
    free_user_tables(&mem, root, fa);
    assert_eq!(fa.free_frames(), before);
    assert_eq!(translate(&mem, kernel, 0xffff_8000_0000_0000).unwrap().0, 0x1000);
}

// ------------------------------------------------------------------- spaces ---

#[test]
fn address_spaces() {
    let (mut g, root, _) = world();
    let (mut mem, mut frames, kernel) = machine();
    let before = free(&frames);
    let space = create_space(&mut g, &mut mem, &mut frames, kernel, root).unwrap();
    let obj = alloc_object(&mut g, &mut frames, root, 4).unwrap();
    let base = g.body(obj).unwrap().phys_base;
    let pml4 = g.body(space).unwrap().pml4_phys;
    let a = attr(0x40_0000, 1, 3, Prot::rwu());
    let e = bramble::vm::map(&mut g, &mut mem, &mut frames, space, obj, a).unwrap();
    assert_eq!(check_page_tables(&g, &mem), Ok(()));
    assert_eq!(translate(&mem, pml4, 0x40_0000).unwrap().0, base + PAGE);
    assert_eq!(translate(&mem, pml4, 0x40_2000).unwrap().0, base + 3 * PAGE);

    // Two ranges may not overlap, whatever they map.
    let b = attr(0x40_2000, 0, 1, Prot::rwu());
    assert_eq!(
        bramble::vm::map(&mut g, &mut mem, &mut frames, space, obj, b),
        Err(VmError::Graph(GraphError::RangeOverlap))
    );
    let far = attr(0x80_0000, 2, 3, Prot::rwu());
    assert_eq!(bramble::vm::map(&mut g, &mut mem, &mut frames, space, obj, far), Err(VmError::OutOfBounds));
    assert_eq!(check_page_tables(&g, &mem), Ok(()));

    // A corrupted table is caught, from both directions.
    let was = poke_entry(&mut mem, pml4, 0x40_1000, 0).unwrap();
    assert_eq!(
        check_page_tables(&g, &mem),
        Err(I5::MissingEntry { space: space.id(), edge: e, vaddr: 0x40_1000 })
    );
    poke_entry(&mut mem, pml4, 0x40_1000, was ^ 0x2);
    assert!(matches!(check_page_tables(&g, &mem), Err(I5::WrongProt { vaddr: 0x40_1000, .. })));
    poke_entry(&mut mem, pml4, 0x40_1000, was + PAGE);
    assert_eq!(
        check_page_tables(&g, &mem),
        Err(I5::WrongFrame {
            space: space.id(),
            edge: e,
            vaddr: 0x40_1000,
            want: base + 2 * PAGE,
            got: base + 3 * PAGE,
        })
    );
    poke_entry(&mut mem, pml4, 0x40_1000, was);
    poke_entry(&mut mem, pml4, 0x40_5000, was);
    assert_eq!(
        check_page_tables(&g, &mem),
        Err(I5::UnknownEntry { space: space.id(), vaddr: 0x40_5000, phys: base + 2 * PAGE })
    );
    poke_entry(&mut mem, pml4, 0x40_5000, 0);
    assert_eq!(check_page_tables(&g, &mem), Ok(()));

    // The entries go with the edge.
    unmap(&mut g, &mut mem, e).unwrap();
    assert_eq!(translate(&mem, pml4, 0x40_0000), None);
    assert_eq!(check_page_tables(&g, &mem), Ok(()));
    assert_eq!(unmap(&mut g, &mut mem, e), Err(VmError::Graph(GraphError::StaleEdge(e))));

    // Deleting both gives every frame back.
    g.begin_delete(space.id()).unwrap();
    g.begin_delete(obj.id()).unwrap();
    let r = drain(&mut g, &mut mem, &mut frames);
    assert_eq!((r.nodes_freed, r.frames_returned, r.tables_returned), (2, 4, 1));
    assert_eq!(free(&frames), before);
}

#[test]
fn one_space_cannot_tell_what_another_maps() {
    let (mut g, root, p) = world();
    let (mut mem, mut frames, kernel) = machine();
    let a = create_space(&mut g, &mut mem, &mut frames, kernel, root).unwrap();
    let b = create_space_for(&mut g, &mut mem, &mut frames, kernel, p).unwrap();
    let obj = alloc_object_for(&mut g, &mut frames, p, 2).unwrap();
    let e = bramble::vm::map(&mut g, &mut mem, &mut frames, a, obj, attr(0x40_0000, 0, 2, Prot::rwu())).unwrap();
    bramble::vm::map(&mut g, &mut mem, &mut frames, b, obj, attr(0x40_0000, 0, 1, Prot::rxu())).unwrap();
    let (ra, rb) = (g.body(a).unwrap().pml4_phys, g.body(b).unwrap().pml4_phys);
    assert_eq!(translate(&mem, ra, 0x40_1000).unwrap().0, g.body(obj).unwrap().phys_base + PAGE);
    assert_eq!(translate(&mem, rb, 0x40_1000), None);
    unmap(&mut g, &mut mem, e).unwrap();
    assert_eq!(translate(&mem, ra, 0x40_0000), None);
    assert!(translate(&mem, rb, 0x40_0000).is_some());
    assert_eq!(check_page_tables(&g, &mem), Ok(()));
    assert_eq!(g.body(obj).unwrap().map_count, 1);
}

#[test]
fn a_mapping_that_cannot_be_written_leaves_no_edge() {
    let (mut g, root, _) = world();
    let (mut mem, mut frames, kernel) = machine();
    let space = create_space(&mut g, &mut mem, &mut frames, kernel, root).unwrap();
    let obj = alloc_object(&mut g, &mut frames, root, 2).unwrap();
    while free(&frames) > 1 {
        frames.as_mut().unwrap().allocate().unwrap();
    }
    let a = attr(0x40_0000, 0, 2, Prot::rwu());
    assert_eq!(
        bramble::vm::map(&mut g, &mut mem, &mut frames, space, obj, a),
        Err(VmError::Paging(MapError::OutOfFrames))
    );
    assert_eq!(g.mapping_count(space), 0);
    assert_eq!(g.body(obj).unwrap().map_count, 0);
    assert_eq!(check_page_tables(&g, &mem), Ok(()));
    let mut nothing: Option<FrameAllocator<'static>> = None;
    assert_eq!(bramble::vm::map(&mut g, &mut mem, &mut nothing, space, obj, a), Err(VmError::NoAllocator));
    assert_eq!(g.mapping_count(space), 0);
    assert_eq!(alloc_object(&mut g, &mut nothing, root, 1).unwrap_err(), VmError::NoAllocator);
    assert_eq!(
        alloc_object(&mut g, &mut frames, root, 5).unwrap_err(),
        VmError::Paging(MapError::OutOfFrames)
    );
    assert_eq!(
        create_space(&mut g, &mut mem, &mut nothing, kernel, root).unwrap_err(),
        VmError::NoAllocator
    );
}

#[test]
fn what_is_gone_is_not_mapped() {
    let (mut g, root, _) = world();
    let (mut mem, mut frames, kernel) = machine();
    let space = create_space(&mut g, &mut mem, &mut frames, kernel, root).unwrap();
    let obj = alloc_object(&mut g, &mut frames, root, 2).unwrap();
    g.begin_delete(obj.id()).unwrap();
    bramble::reaper::drain(&mut g, &mut mem, &mut frames);
    let a = attr(0x40_0000, 0, 2, Prot::rwu());
    assert_eq!(
        bramble::vm::map(&mut g, &mut mem, &mut frames, space, obj, a),
        Err(VmError::StaleSpace)
    );
    assert_eq!(g.mapping_count(space), 0);
}

#[test]
fn a_lazy_mapping_is_filled_a_page_at_a_time() {
    let (mut g, root, p) = world();
    let (mut mem, mut frames, kernel) = machine();
    let space = create_space(&mut g, &mut mem, &mut frames, kernel, root).unwrap();
    let obj = alloc_object(&mut g, &mut frames, root, 3).unwrap();
    let t = g.create_under_process(p, Thread::zero()).unwrap();
    g.link_in_space(t, space).unwrap();
    bramble::vm::map(&mut g, &mut mem, &mut frames, space, obj, lazily(0x40_0000, 3, Prot::rwu())).unwrap();
    let pml4 = g.body(space).unwrap().pml4_phys;
    let base = g.body(obj).unwrap().phys_base;
    assert_eq!(translate(&mem, pml4, 0x40_1000), None);
    assert_eq!(check_page_tables(&g, &mem), Ok(()));
    assert!(fault_in(&g, &mut mem, &mut frames, t.id(), 0x40_1234));
    assert_eq!(translate(&mem, pml4, 0x40_1000).unwrap().0, base + PAGE);
    assert_eq!(translate(&mem, pml4, 0x40_0000), None);
    assert_eq!(check_page_tables(&g, &mem), Ok(()));
    // The page is there now, so a second fault on it is about permissions.
    assert!(!fault_in(&g, &mut mem, &mut frames, t.id(), 0x40_1234));
    // Nothing covers this one.
    assert!(!fault_in(&g, &mut mem, &mut frames, t.id(), 0x50_0000));
    assert!(!fault_in(&g, &mut mem, &mut frames, NodeId::null(), 0x40_0000));
}

#[test]
fn an_eager_mapping_never_faults_in() {
    let (mut g, root, p) = world();
    let (mut mem, mut frames, kernel) = machine();
    let space = create_space(&mut g, &mut mem, &mut frames, kernel, root).unwrap();
    let obj = alloc_object(&mut g, &mut frames, root, 1).unwrap();
    let t = g.create_under_process(p, Thread::zero()).unwrap();
    g.link_in_space(t, space).unwrap();
    bramble::vm::map(&mut g, &mut mem, &mut frames, space, obj, attr(0x40_0000, 0, 1, Prot::rxu())).unwrap();
    assert!(!fault_in(&g, &mut mem, &mut frames, t.id(), 0x40_0000));
}

// ------------------------------------------------------------------- reaping ---

#[test]
fn paged_memory_gives_back_the_pages_that_were_real() {
    let (mut g, root, _) = world();
    let (mut mem, mut frames, _) = machine();
    let before = free(&frames);
    let fa = frames.as_mut().unwrap();
    let table = fa.allocate().unwrap();
    let page = fa.allocate().unwrap();
    write_u64(&mut mem, table as usize + 8, page);
    assert_eq!(read_u64(&mem, table as usize + 8), page);
    assert_eq!(frame_entry(&mem, table, 0), 0);
    assert_eq!(frame_entry(&mem, table, 1), page);
    let obj = g
        .create_under_root(
            root,
            MemoryObject {
                frames_phys: table,
                frames_pages: 1,
                pages: 3,
                flags: MemFlags::paged(),
                ..MemoryObject::zero()
            },
        )
        .unwrap();
    g.begin_delete(obj.id()).unwrap();
    let r = drain(&mut g, &mut mem, &mut frames);
    assert_eq!((r.nodes_freed, r.frames_returned), (1, 2));
    assert_eq!(free(&frames), before);
}

#[test]
fn pinned_and_device_memory_stays_where_it_is() {
    let (mut g, root, _) = world();
    let (mut mem, mut frames, _) = machine();
    let before = free(&frames);
    let phys = frames.as_mut().unwrap().alloc_contiguous(2).unwrap();
    for flags in [MemFlags::pinned(), MemFlags::device()] {
        let obj = g
            .create_under_root(
                root,
                MemoryObject { phys_base: phys, pages: 2, flags, ..MemoryObject::zero() },
            )
            .unwrap();
        g.begin_delete(obj.id()).unwrap();
        assert_eq!(drain(&mut g, &mut mem, &mut frames).frames_returned, 0);
    }
    assert_eq!(free(&frames), before - 2);
}

#[test]
fn a_report_starts_empty_and_idle_steps_change_nothing() {
    let (mut g, _, _) = world();
    let (mut mem, mut frames, _) = machine();
    let mut r = ReapReport::empty();
    assert_eq!(r, ReapReport::default());
    assert!(!step(&mut g, &mut mem, &mut frames, &mut r));
    assert_eq!(r, ReapReport::empty());
    assert!(r.last_aborted.is_null());
    assert!(matches!(Reclaim::Nothing, Reclaim::Nothing));
}

#[test]
fn the_graph_checks_out_after_all_of_it() {
    let (mut g, root, p) = world();
    let (mut mem, mut frames, kernel) = machine();
    let mut spaces: Vec<Ref<AddressSpace>> = Vec::new();
    let obj = alloc_object_for(&mut g, &mut frames, p, 8).unwrap();
    let mut edges: Vec<EdgeId> = Vec::new();
    for i in 0..3u64 {
        let s = create_space(&mut g, &mut mem, &mut frames, kernel, root).unwrap();
        for k in 0..4u64 {
            let a = attr(0x40_0000 + (i + 4 * k) * 0x10_0000, k as u32, 2, Prot::rwu());
            edges.push(bramble::vm::map(&mut g, &mut mem, &mut frames, s, obj, a).unwrap());
        }
        spaces.push(s);
    }
    assert_eq!(check_page_tables(&g, &mem), Ok(()));
    for (i, e) in edges.iter().enumerate() {
        if i % 3 == 0 {
            unmap(&mut g, &mut mem, *e).unwrap();
        }
    }
    assert_eq!(check_page_tables(&g, &mem), Ok(()));
    assert_eq!(Checker::new().check(&g), Ok(()));
    let n = g.out_edges(spaces[0].id(), EdgeKind::Maps).count();
    assert_eq!(n, g.mapping_count(spaces[0]) as usize);
}

// ------------------------------------------------------------- the reaper's ---

#[test]
fn memory_that_goes_leaves_the_spaces_that_stay() {
    let (mut g, root, _) = world();
    let (mut mem, mut frames, kernel) = machine();
    let space = create_space(&mut g, &mut mem, &mut frames, kernel, root).unwrap();
    let kept = alloc_object(&mut g, &mut frames, root, 1).unwrap();
    let gone = alloc_object(&mut g, &mut frames, root, 2).unwrap();
    let pml4 = g.body(space).unwrap().pml4_phys;
    bramble::vm::map(&mut g, &mut mem, &mut frames, space, kept, attr(0x40_0000, 0, 1, Prot::rwu()))
        .unwrap();
    bramble::vm::map(&mut g, &mut mem, &mut frames, space, gone, attr(0x50_0000, 0, 2, Prot::rwu()))
        .unwrap();
    let base = g.body(kept).unwrap().phys_base;
    let before = free(&frames);
    g.begin_delete(gone.id()).unwrap();
    // The entries are there until the edge goes, and go with it.
    assert!(translate(&mem, pml4, 0x50_0000).is_some());
    let mut r = ReapReport::empty();
    assert!(step(&mut g, &mut mem, &mut frames, &mut r));
    assert_eq!(translate(&mem, pml4, 0x50_0000), None);
    assert_eq!(translate(&mem, pml4, 0x50_1000), None);
    assert_eq!(translate(&mem, pml4, 0x40_0000).unwrap().0, base);
    assert_eq!(check_page_tables(&g, &mem), Ok(()));
    let r = drain(&mut g, &mut mem, &mut frames);
    assert_eq!((r.nodes_freed, r.frames_returned, r.tables_returned), (1, 2, 0));
    assert_eq!(free(&frames), before + 2);
    assert_eq!(check_page_tables(&g, &mem), Ok(()));
    assert_eq!(Checker::new().check(&g), Ok(()));
    // What comes next into those frames is not what the space sees.
    let other = alloc_object(&mut g, &mut frames, root, 2).unwrap();
    assert!(g.is_live(other.id()));
    assert_eq!(translate(&mem, pml4, 0x50_0000), None);
}

#[test]
fn the_kernel_half_is_not_for_mapping() {
    let (mut g, root, _) = world();
    let (mut mem, mut frames, kernel) = machine();
    let space = create_space(&mut g, &mut mem, &mut frames, kernel, root).unwrap();
    let obj = alloc_object(&mut g, &mut frames, root, 2).unwrap();
    let pml4 = g.body(space).unwrap().pml4_phys;
    let was = mem.clone();
    for bad in [
        attr(0xffff_8000_0000_0000, 0, 1, Prot::rwu()),
        attr(0x8000_0000_0000, 0, 1, Prot::rwu()),
        attr(0x7fff_ffff_f000, 0, 2, Prot::rwu()),
        attr(0x40_0800, 0, 1, Prot::rwu()),
        attr(u64::MAX - 0xfff, 0, 2, Prot::rwu()),
    ] {
        assert_eq!(
            bramble::vm::map(&mut g, &mut mem, &mut frames, space, obj, bad),
            Err(VmError::OutOfBounds)
        );
    }
    assert_eq!(mem, was);
    assert_eq!(g.mapping_count(space), 0);
    let last = attr(0x7fff_ffff_e000, 0, 2, Prot::rwu());
    bramble::vm::map(&mut g, &mut mem, &mut frames, space, obj, last).unwrap();
    assert!(translate(&mem, pml4, 0x7fff_ffff_f000).is_some());
    assert_eq!(translate(&mem, pml4, 0xffff_8000_0000_0000), None);
    assert_eq!(check_page_tables(&g, &mem), Ok(()));
}

#[test]
fn a_space_takes_the_first_frame_that_is_free() {
    let (mut g, root, _) = world();
    let (mut mem, mut frames, kernel) = machine();
    let a = create_space(&mut g, &mut mem, &mut frames, kernel, root).unwrap();
    let b = create_space(&mut g, &mut mem, &mut frames, kernel, root).unwrap();
    let (pa, pb) = (g.body(a).unwrap().pml4_phys, g.body(b).unwrap().pml4_phys);
    assert_eq!(pa, kernel + PAGE);
    assert_eq!(pb, kernel + 2 * PAGE);
    // A root given back is where the next search starts.
    g.begin_delete(a.id()).unwrap();
    drain(&mut g, &mut mem, &mut frames);
    assert_eq!(frames.as_ref().unwrap().hint, (pa / PAGE) as usize);
    assert!(frames.as_ref().unwrap().is_free((pa / PAGE) as usize));
    let c = create_space(&mut g, &mut mem, &mut frames, kernel, root).unwrap();
    assert_eq!(g.body(c).unwrap().pml4_phys, pa);
    assert_eq!(frames.as_ref().unwrap().hint, (pa / PAGE) as usize + 1);
}

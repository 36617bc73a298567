//! Snapshots, the dump, boot, the console, the serial port, the timer, and
//! what a program does with its own output.

use bramble::abi::{inspect_size, EDGE_KIND_RUNNING, INSPECT_MAGIC, INSPECT_VERSION};
use bramble::body::{
    AddressSpace, Cpu, Device, DeviceClass, Endpoint, MemFlags, MemoryObject, NodeBody, Process,
    Rights, Thread,
};
use bramble::boot::{pages_for, short_name, Facts, Module};
use bramble::checker::Checker;
use bramble::dump::dump_graph;
use bramble::edge::{MapFlags, MapsAttr, Prot, WaitRole, WaitingAttr};
use bramble::fb::{background, draw_banner, foreground, Rgb, Surface};
use bramble::frames::{BitmapRegion, Region, RegionKind};
use bramble::graph::Graph;
use bramble::id::{EdgeKind, NodeId, NodeKind};
use bramble::inspect::{node_record, snapshot_size, virtual_edge_count, write_snapshot};
use bramble::machine::{
    contains, hhdm, init, kernel_pml4, memory_totals, set_hhdm, set_kernel_pml4, set_kernel_rsp,
};
use bramble::records::{read_adjacency, read_edge, read_header, read_node};
use bramble::serial::{write_str, SendStep, SerialPort, COM1, MAX_SPINS};
use bramble::state::{populate, refresh_frame_counts};
use bramble::time::{eoi, init_pic, init_timer, tick, ticks, unmask};
use bramble::timings::{timing_overhead, Readings, Timings};
use bramble::user::{rights_str, whole_kernel_state, Console, CONSOLE_BYTES};

fn text(b: Vec<u8>) -> String {
    String::from_utf8(b).unwrap()
}

fn small_graph() -> Box<Graph> {
    let mut g = Box::new(Graph::empty());
    let root = g.create_root().unwrap();
    let cpu = g.create_under_root(root, Cpu::zero()).unwrap();
    let p = g.create_under_root(root, Process::zero()).unwrap();
    let t = g.create_under_process(p, Thread::zero()).unwrap();
    let ep = g.create_under_process(p, Endpoint::zero()).unwrap();
    g.grant(p, ep, Rights(Rights::send().0 | Rights::recv().0)).unwrap();
    g.link_named(root, ep, "mail\"box").unwrap();
    g.make_running(cpu, t).unwrap();
    g
}

// ------------------------------------------------------------------ snapshots ---

#[test]
fn a_snapshot_reads_back_as_the_graph() {
    let g = small_graph();
    assert_eq!(virtual_edge_count(&g), 1);
    let size = snapshot_size(&g);
    assert_eq!(size, inspect_size(5, g.edge_count() + 1));
    let mut buf = vec![0xffu8; size + 3];
    assert_eq!(write_snapshot(&g, &mut buf[..size - 1]), 0);
    assert_eq!(buf[0], 0xff);
    assert_eq!(write_snapshot(&g, &mut buf), size);
    assert_eq!(buf[size], 0xff);
    let h = read_header(&buf).unwrap();
    assert_eq!((h.magic, h.version, h.seq), (INSPECT_MAGIC, INSPECT_VERSION, g.seq()));
    assert_eq!((h.node_count, h.edge_count), (5, g.edge_count() + 1));
    assert_eq!(h.node_offset, 64);
    let nodes = g.live_nodes();
    let mut seen = 0;
    for (i, id) in nodes.iter().enumerate() {
        let n = read_node(&buf, h.node_offset as usize + 32 * i).unwrap();
        assert_eq!(n, node_record(&g, *id));
        assert_eq!(n.id, id.0);
        // The adjacency table leads to this node's edges.
        let a = read_adjacency(&buf, h.adjacency_offset as usize + 8 * i).unwrap();
        assert_eq!(a.first, seen);
        for k in a.first..a.first + a.count {
            let e = read_edge(&buf, h.edge_offset as usize + 40 * k as usize).unwrap();
            assert_eq!(e.src, id.0);
        }
        seen += a.count;
    }
    assert_eq!(seen, h.edge_count);
}

#[test]
fn a_running_thread_is_a_virtual_edge() {
    let g = small_graph();
    let mut buf = vec![0u8; snapshot_size(&g)];
    write_snapshot(&g, &mut buf);
    let h = read_header(&buf).unwrap();
    let mut running = Vec::new();
    for i in 0..h.edge_count as usize {
        let e = read_edge(&buf, h.edge_offset as usize + 40 * i).unwrap();
        if e.kind == EDGE_KIND_RUNNING {
            running.push((NodeId(e.src).kind(), NodeId(e.dst).kind()));
        }
    }
    assert_eq!(running, vec![(Some(NodeKind::Cpu), Some(NodeKind::Thread))]);
}

#[test]
fn a_program_counts_the_whole_kernel() {
    let g = small_graph();
    let mut buf = vec![0u8; snapshot_size(&g)];
    write_snapshot(&g, &mut buf);
    let c = whole_kernel_state(&buf).unwrap();
    assert_eq!(c.header.node_count, 5);
    assert_eq!(c.nodes.iter().sum::<u32>(), 5);
    assert_eq!(c.nodes[NodeKind::Process.code() as usize], 1);
    assert_eq!(c.edges[EdgeKind::Owns.code() as usize], 4);
    assert_eq!(c.edges[EdgeKind::Holds.code() as usize], 1);
    // What is no snapshot is nothing.
    buf[0] ^= 1;
    assert!(whole_kernel_state(&buf).is_none());
    buf[0] ^= 1;
    buf.truncate(100);
    assert!(whole_kernel_state(&buf).is_none());
    assert!(whole_kernel_state(&[]).is_none());
}

// ----------------------------------------------------------------------- dump ---

#[test]
fn the_dump_shows_every_node_and_edge() {
    let mut g = small_graph();
    let root = g.root().unwrap();
    let p = g.create_under_root(root, Process::zero()).unwrap();
    let s = g
        .create_under_process(p, AddressSpace { pml4_phys: 0x1f000, ..AddressSpace::zero() })
        .unwrap();
    let m = g
        .create_under_process(
            p,
            MemoryObject {
                phys_base: 0x20_0000,
                pages: 4,
                flags: MemFlags::pinned(),
                ..MemoryObject::zero()
            },
        )
        .unwrap();
    g.link_maps(
        s,
        m,
        MapsAttr {
            vaddr: 0x40_0000,
            off_pages: 1,
            len_pages: 2,
            prot: Prot::rwu(),
            flags: MapFlags::none(),
        },
    )
    .unwrap();
    let t = g.create_under_process(p, Thread::zero()).unwrap();
    let e = g.create_under_process(p, Endpoint::zero()).unwrap();
    g.make_blocked(t, e, WaitingAttr { role: WaitRole::Recv, badge: 7 }).unwrap();
    let d = g
        .create_under_root(
            root,
            Device { class: DeviceClass::SerialConsole, io_base: 0x3f8, irq: 4 },
        )
        .unwrap();
    let out = text(dump_graph(&g));
    let lines: Vec<&str> = out.lines().collect();
    assert_eq!(
        lines[0],
        format!(
            "--- graph begin seq={} nodes={} edges={} ---",
            g.seq(),
            g.node_count(),
            g.edge_count()
        )
    );
    assert_eq!(*lines.last().unwrap(), "--- graph end ---");
    assert_eq!(lines.len() as u32, 2 + g.node_count() + g.edge_count());
    let has = |l: &str| assert!(lines.contains(&l), "{} in {}", l, out);
    has("node Root#0.1 - ticks=0 frames=0/0");
    has("node Cpu#0.1 - lapic=0 current=Thread#0.1");
    has("node Process#0.1 - handles=1");
    has("node AddressSpace#0.1 - pml4=0x00000001f000 mappings=1");
    has("node MemoryObject#0.1 - phys=0x000000200000 pages=4 pinned maps=1");
    has("node Thread#1.1 - state=Blocked cr3=0x0");
    has("node Device#0.1 - class=SerialConsole io=0x03f8 irq=4");
    has("node Endpoint#0.1 -");
    has("edge Owns Root#0.1 -> Cpu#0.1");
    has("edge Holds Process#0.1 -> Endpoint#0.1 rights=sr slot=1");
    has("edge Maps AddressSpace#0.1 -> MemoryObject#0.1 vaddr=0x000000400000 pages=2 off=1 prot=0x0b");
    has("edge Waiting Thread#1.1 -> Endpoint#1.1 role=Recv badge=7");
    // A name is quoted, and what stands in the way of that is escaped.
    has("edge Named Root#0.1 -> Endpoint#0.1 name=\"mail\\\"box\"");
    g.begin_delete(d.id()).unwrap();
    assert!(text(dump_graph(&g)).contains("node Device#0.1 dying class=SerialConsole"));
}

// ----------------------------------------------------------------------- boot ---

#[test]
fn boot_puts_the_machine_in_the_graph() {
    let mut g = Box::new(Graph::empty());
    let entries = [
        Region { base: 0x1000, length: 0x10_0000, kind: RegionKind::Usable },
        Region { base: 0x20_0000, length: 0x1800, kind: RegionKind::ExecutableAndModules },
        Region { base: 0xe000_0000, length: 0x30_0000, kind: RegionKind::Framebuffer },
    ];
    let base = 0xffff_8000_0000_0000;
    let modules = vec![
        Module { addr: base + 0x30_0000, size: 0x1001, path: b"/boot/programs/init" },
        Module { addr: base + 0x31_0000, size: 0x1000, path: b"a-name-much-too-long-to-fit-inline" },
    ];
    let f = Facts {
        bitmap: BitmapRegion { phys: 0x8000, pages: 1 },
        serial_io_base: 0x3f8,
        total_frames: 0x300,
        free_frames: 0x100,
        hhdm: base,
        active_pml4: 0x5000,
    };
    let n = populate(&mut g, &entries, &modules, f).unwrap();
    assert_eq!(Checker::new().check(&g), Ok(()));
    for (name, id) in [
        ("cpu0", n.cpu0),
        ("console", n.console),
        ("framebuffer", n.framebuffer),
        ("frame-bitmap", n.bitmap),
        ("kernel-image", n.kernel_image),
        ("kernel-space", n.kernel_space),
        ("physical-memory", n.phys_memory),
    ] {
        assert_eq!(g.lookup_name(name), Some(id), "{}", name);
    }
    let init_module = g.lookup_name("init").unwrap();
    let m = *g.body(g.typed::<MemoryObject>(init_module).unwrap()).unwrap();
    assert_eq!((m.phys_base, m.pages), (0x30_0000, 2));
    assert!(g.lookup_name("a-name-much-too-long-to").is_some());
    let root = g.root().unwrap();
    assert_eq!(root.id(), n.root);
    assert_eq!(g.body(root).unwrap().total_frames, 0x300);
    let s = g.typed::<AddressSpace>(n.kernel_space).unwrap();
    assert_eq!((g.body(s).unwrap().is_kernel, g.body(s).unwrap().pml4_phys), (1, 0x5000));
    assert_eq!(g.mapping_count(s), 2);
    refresh_frame_counts(&mut g, &None);
    assert_eq!(g.body(root).unwrap().free_frames, 0x100);
    // Booting twice is refused: there is one root.
    assert!(populate(&mut g, &entries, &modules, f).is_err());
}

#[test]
fn names_and_sizes_are_what_fits() {
    assert_eq!(short_name(b"/boot/hello"), "hello");
    assert_eq!(short_name(b"hello"), "hello");
    assert_eq!(short_name(b"/boot/"), "");
    assert_eq!(short_name(&[0x2f, 0xff, 0xfe]), "module");
    assert_eq!(short_name(b"0123456789012345678901234567"), "01234567890123456789012");
    assert_eq!((pages_for(0), pages_for(1), pages_for(4096), pages_for(4097)), (0, 1, 1, 2));
}

#[test]
fn what_the_machine_knows_is_set_and_read() {
    let mut m = init();
    assert_eq!((hhdm(&m), kernel_pml4(&m)), (0, 0));
    set_hhdm(&mut m, 7);
    set_kernel_pml4(&mut m, 8);
    set_kernel_rsp(&mut m, 9);
    assert_eq!((hhdm(&m), kernel_pml4(&m), m.kernel_rsp), (7, 8, 9));
    assert!(contains(b"boot selftest=yes", b"selftest"));
    assert!(contains(b"abc", b"abc"));
    assert!(!contains(b"ab", b"abc"));
    assert!(!contains(b"abd", b"abc"));
    assert!(!contains(b"abc", b""));
    let entries = [
        Region { base: 0, length: 10, kind: RegionKind::Usable },
        Region { base: 10, length: 5, kind: RegionKind::Reserved },
    ];
    assert_eq!(memory_totals(&entries), (15, 10));
}

// -------------------------------------------------------------------- console ---

fn surface(width: usize, height: usize) -> Surface {
    Surface {
        width,
        height,
        pitch: width * 4,
        bpp: 32,
        red_shift: 16,
        green_shift: 8,
        blue_shift: 0,
    }
}

fn pixel(fb: &[u8], s: &Surface, x: usize, y: usize) -> u32 {
    let at = y * s.pitch + x * 4;
    u32::from_le_bytes([fb[at], fb[at + 1], fb[at + 2], fb[at + 3]])
}

fn code(c: Rgb) -> u32 {
    ((c.0 as u32) << 16) | ((c.1 as u32) << 8) | c.2 as u32
}

#[test]
fn text_is_drawn_and_scrolls() {
    let s = surface(32, 32);
    let mut fb = vec![0u8; 32 * 32 * 4];
    // A font whose glyph for 'A' has its left column set.
    let mut font = vec![0u8; 4096];
    for i in 0..16 {
        font[0x41 * 16 + i] = 0x80;
    }
    let mut c = bramble::fb::Console::new();
    assert!(!c.is_attached());
    c.write_bytes(&mut fb, &font, b"A");
    assert_eq!(fb[0], 0);
    c.attach(&mut fb, s);
    assert!(c.is_attached());
    assert_eq!((c.cols, c.rows), (4, 2));
    assert_eq!(pixel(&fb, &s, 31, 31), code(background()));
    c.write_bytes(&mut fb, &font, b" A");
    assert_eq!(pixel(&fb, &s, 8, 0), code(foreground()));
    assert_eq!(pixel(&fb, &s, 8, 15), code(foreground()));
    assert_eq!(pixel(&fb, &s, 9, 0), code(background()));
    assert_eq!(pixel(&fb, &s, 0, 0), code(background()));
    // The second line, and then one more: the first scrolls away.
    c.write_bytes(&mut fb, &font, b"\nA\n");
    assert_eq!(pixel(&fb, &s, 0, 0), code(foreground()));
    assert_eq!(pixel(&fb, &s, 8, 0), code(background()));
    assert_eq!(pixel(&fb, &s, 0, 16), code(background()));
    c.set_colour(Rgb(1, 2, 3));
    c.write_bytes(&mut fb, &font, b"A");
    assert_eq!(pixel(&fb, &s, 0, 16), 0x0001_0203);
}

#[test]
fn pixels_outside_are_not_painted() {
    let s = surface(8, 16);
    let mut fb = vec![0u8; 8 * 16 * 4];
    let mut c = bramble::fb::Console::new();
    c.attach(&mut fb, s);
    let before = fb.clone();
    c.put_pixel(&mut fb, 8, 0, Rgb(255, 0, 0));
    c.put_pixel(&mut fb, 0, 16, Rgb(255, 0, 0));
    assert_eq!(fb, before);
    c.fill_rect(&mut fb, 6, 14, 10, 10, Rgb(255, 0, 0));
    assert_eq!(pixel(&fb, &s, 7, 15), 0x00ff_0000);
    assert_eq!(pixel(&fb, &s, 5, 15), code(background()));
}

#[test]
fn the_banner_leaves_the_cursor_below_itself() {
    let s = surface(480, 160);
    let mut fb = vec![0u8; 480 * 160 * 4];
    let font = vec![0xffu8; 4096];
    let mut c = bramble::fb::Console::new();
    draw_banner(&mut c, &mut fb, &font);
    assert_eq!(fb[0], 0);
    c.attach(&mut fb, s);
    draw_banner(&mut c, &mut fb, &font);
    assert_eq!((c.col, c.row), (0, 5));
    assert_eq!(pixel(&fb, &s, 24, 6), code(bramble::fb::accent()));
    assert_eq!(pixel(&fb, &s, 424, 46), code(background()));
    assert_eq!(pixel(&fb, &s, 423, 46), code(bramble::fb::accent()));
}

// ------------------------------------------------------- serial port and timer ---

#[test]
fn the_serial_port_is_set_up_and_written_to() {
    let mut p = SerialPort::new(COM1);
    assert_eq!(p.write_byte(0xff, 0), SendStep::Drop);
    assert!(!p.read_byte(1));
    let w = p.init();
    assert_eq!(w.len(), 7);
    assert_eq!((w[0], w[2], w[6]), ((0x3f9, 0), (0x3f8, 1), (0x3fc, 0x0b)));
    assert_eq!(p.status_port(), 0x3fd);
    assert_eq!(p.write_byte(0x20, 0), SendStep::Send);
    assert_eq!(p.write_byte(0, 0), SendStep::Wait);
    // A port that is not there must not hang the kernel.
    assert_eq!(p.write_byte(0, MAX_SPINS), SendStep::Send);
    assert!(p.read_byte(1));
    assert!(!p.read_byte(2));
    assert_eq!(write_str(b"a\nb\n"), b"a\r\nb\r\n");
}

#[test]
fn the_timer_is_programmed_and_counts() {
    let w = init_pic();
    assert_eq!(w.len(), 10);
    assert_eq!((w[2], w[3]), ((0x21, 0x20), (0xa1, 0x28)));
    assert_eq!(unmask(0xff, 0), 0xfe);
    assert_eq!(unmask(0xff, 7), 0x7f);
    assert_eq!(eoi(0x20), vec![0x20]);
    assert_eq!(eoi(0x28), vec![0xa0, 0x20]);
    // 1193182 / 100 is 11931.
    assert_eq!(init_timer(100), vec![(0x43, 0x34), (0x40, 0x9b), (0x40, 0x2e)]);
    assert_eq!(init_timer(1), vec![(0x43, 0x34), (0x40, 0xff), (0x40, 0xff)]);
    assert_eq!(init_timer(u32::MAX), vec![(0x43, 0x34), (0x40, 1), (0x40, 0)]);
    let mut n = u64::MAX - 1;
    tick(&mut n);
    assert_eq!(ticks(&n), u64::MAX);
    tick(&mut n);
    assert_eq!(ticks(&n), 0);
}

#[test]
fn handoffs_are_timed() {
    let mut t = Timings::new();
    t.record(Readings { start: 100, found: 110, delivered: 130, end: 190 });
    t.record(Readings { start: 200, found: 201, delivered: 203, end: 206 });
    assert_eq!(t.handoff_stats(), (96, 2));
    assert_eq!(t.handoff_breakdown(), (11, 22, 63));
    assert_eq!(t.elapsed(), 106);
    t.reset_handoff_stats();
    assert_eq!(t, Timings::new());
    assert_eq!(timing_overhead(&vec![(1, 4), (10, 15)]), 4);
}

// ------------------------------------------------------------------- programs ---

#[test]
fn output_goes_out_a_line_at_a_time() {
    let mut c = Console::new();
    for b in b"ab" {
        assert_eq!(c.write_byte(*b), (vec![], vec![]));
    }
    assert_eq!(c.write_byte(b'\n'), (vec![], b"ab\n".to_vec()));
    assert_eq!(c.flush(), Vec::<u8>::new());
    for _ in 0..CONSOLE_BYTES {
        assert_eq!(c.write_byte(b'x'), (vec![], vec![]));
    }
    // A full buffer goes out before the next byte comes in.
    assert_eq!(c.write_byte(b'\n'), (vec![b'x'; CONSOLE_BYTES], b"\n".to_vec()));
    c.write_byte(b'z');
    assert_eq!(c.flush(), b"z".to_vec());
}

#[test]
fn rights_are_written_as_letters() {
    assert_eq!(text(rights_str(0)), "-");
    assert_eq!(text(rights_str(Rights::write().0)), "W");
    assert_eq!(text(rights_str(0xff)), "RWMsrglA");
}

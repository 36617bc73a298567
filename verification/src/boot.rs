//! What boot puts into the graph: a script of nodes to make under the root, in
//! order, and how it is run.

use vstd::prelude::*;

use crate::body::{AddressSpace, Body, Cpu, Device, MemFlags, MemoryObject, NodeBody};
use crate::frames::{BitmapRegion, Region, RegionKind};
use crate::limits::MAX_NAME_LEN;

verus! {

/// How many pages hold that many bytes.
pub open spec fn spec_pages_for(bytes: u64) -> u32 {
    ((bytes + 4095) / 4096) as u32
}

#[verifier::when_used_as_spec(spec_pages_for)]
pub fn pages_for(bytes: u64) -> (r: u32)
    ensures
        r == spec_pages_for(bytes),
{
    let whole: u64 = bytes / 4096;
    let pages: u64 = if bytes % 4096 != 0 {
        whole + 1
    } else {
        whole
    };
    assert(pages == (bytes + 4095) / 4096);
    #[verifier::truncate]
    (pages as u32)
}

// ------------------------------------------------------------------- names ---

/// Where the last path component starts.
pub open spec fn name_start(path: Seq<u8>, n: int) -> int
    decreases n,
{
    if n <= 0 {
        0
    } else if path[n - 1] == 0x2f {
        n
    } else {
        name_start(path, n - 1)
    }
}

/// The last path component, cut to what fits inline.
pub open spec fn short_bytes(path: Seq<u8>) -> Seq<u8> {
    let s = name_start(path, path.len() as int);
    let e = if path.len() - s > MAX_NAME_LEN {
        s + MAX_NAME_LEN
    } else {
        path.len() as int
    };
    path.subrange(s, e)
}

/// The name a module goes by.
pub open spec fn short_text(path: Seq<u8>) -> Seq<char> {
    if vstd::utf8::valid_utf8(short_bytes(path)) {
        vstd::utf8::decode_utf8(short_bytes(path))
    } else {
        "module"@
    }
}

/// The last path component of a module, truncated to what fits inline.
pub fn short_name(path: &[u8]) -> (r: &str)
    ensures
        r@ == short_text(path@),
{
    let mut n: usize = path.len();
    while n > 0 && path[n - 1] != 0x2f
        invariant
            n <= path@.len(),
            name_start(path@, path@.len() as int) == name_start(path@, n as int),
        decreases n,
    {
        n = n - 1;
    }
    let end: usize = if path.len() - n > MAX_NAME_LEN {
        n + MAX_NAME_LEN
    } else {
        path.len()
    };
    match crate::edge::utf8_text(vstd::slice::slice_subrange(path, n, end)) {
        Some(s) => s,
        None => "module",
    }
}

// ------------------------------------------------------------------ script ---

/// A module the bootloader handed over, through the direct map.
#[derive(Clone, Copy)]
pub struct Module<'a> {
    pub addr: u64,
    pub size: u64,
    pub path: &'a [u8],
}

/// The body of a node that boot makes.
#[derive(Clone, Copy)]
pub enum BootBody {
    Cpu(Cpu),
    Memory(MemoryObject),
    Space(AddressSpace),
    Device(Device),
}

impl BootBody {
    pub open spec fn erase(self) -> Body {
        match self {
            BootBody::Cpu(b) => Body::Cpu(b),
            BootBody::Memory(b) => Body::MemoryObject(b),
            BootBody::Space(b) => Body::AddressSpace(b),
            BootBody::Device(b) => Body::Device(b),
        }
    }
}

/// The name it gets: none, one it must get, or one it may go without.
#[derive(Clone, Copy)]
pub enum BootName<'a> {
    Unnamed,
    Must(&'a str),
    May(&'a str),
}

impl<'a> BootName<'a> {
    pub open spec fn text(self) -> Option<Seq<char>> {
        match self {
            BootName::Unnamed => None,
            BootName::Must(s) => Some(s@),
            BootName::May(s) => Some(s@),
        }
    }
}

/// One node that boot makes under the root.
#[derive(Clone, Copy)]
pub struct BootItem<'a> {
    pub body: BootBody,
    pub name: BootName<'a>,
}

/// What an item asks for, in mathematical terms.
pub ghost struct Asked {
    pub body: Body,
    pub name: Option<Seq<char>>,
    pub strict: bool,
}

impl<'a> BootItem<'a> {
    pub open spec fn asked(self) -> Asked {
        Asked {
            body: self.body.erase(),
            name: self.name.text(),
            strict: self.name is Must,
        }
    }
}

pub open spec fn asked_all(s: Seq<BootItem<'_>>) -> Seq<Asked> {
    Seq::new(s.len(), |i: int| s[i].asked())
}

/// A stretch of physical memory that is spoken for.
pub open spec fn memory(base: u64, pages: u32, flags: MemFlags) -> Body {
    Body::MemoryObject(MemoryObject { phys_base: base, pages, flags, ..MemoryObject::spec_zero() })
}

/// The regions of one kind among the first `n`, each a memory object, the
/// first of them with a name.
pub open spec fn region_items(
    entries: Seq<Region>,
    n: int,
    kind: RegionKind,
    flags: MemFlags,
    name: Seq<char>,
) -> Seq<Asked>
    decreases n,
{
    if n <= 0 {
        Seq::empty()
    } else {
        let before = region_items(entries, n - 1, kind, flags, name);
        if entries[n - 1].kind == kind {
            before.push(
                Asked {
                    body: memory(
                        entries[n - 1].base,
                        pages_for(entries[n - 1].length),
                        flags,
                    ),
                    name: if before.len() == 0 {
                        Some(name)
                    } else {
                        None
                    },
                    strict: before.len() == 0,
                },
            )
        } else {
            before
        }
    }
}

/// Where a module really is: the bootloader's pointer is virtual, a memory
/// object records physical addresses.
pub open spec fn module_phys(addr: u64, hhdm: u64) -> u64 {
    if addr >= hhdm {
        (addr - hhdm) as u64
    } else {
        0
    }
}

/// The first `n` modules, the first four of them with a name they may go
/// without.
pub open spec fn module_items(modules: Seq<Module<'_>>, n: int, hhdm: u64) -> Seq<Asked>
    decreases n,
{
    if n <= 0 {
        Seq::empty()
    } else {
        module_items(modules, n - 1, hhdm).push(
            Asked {
                body: memory(
                    module_phys(modules[n - 1].addr, hhdm),
                    pages_for(modules[n - 1].size),
                    MemFlags(2),
                ),
                name: if n - 1 < 4 {
                    Some(short_text(modules[n - 1].path@))
                } else {
                    None
                },
                strict: false,
            },
        )
    }
}

/// What boot knows of the machine.
#[derive(Clone, Copy)]
pub struct Facts {
    pub bitmap: BitmapRegion,
    pub serial_io_base: u16,
    pub total_frames: u64,
    pub free_frames: u64,
    pub hhdm: u64,
    pub active_pml4: u64,
}

pub open spec fn one(body: Body, name: Seq<char>) -> Seq<Asked> {
    seq![Asked { body, name: Some(name), strict: true }]
}

/// The nodes boot makes before it maps anything: the cpu, the kernel image and
/// whatever came with it, the framebuffer, the allocator's own bitmap, the
/// modules, all of physical memory, and the kernel's address space.
pub open spec fn boot_script(entries: Seq<Region>, modules: Seq<Module<'_>>, f: Facts) -> Seq<
    Asked,
> {
    one(Body::Cpu(Cpu::spec_zero()), "cpu0"@) + region_items(
        entries,
        entries.len() as int,
        RegionKind::ExecutableAndModules,
        MemFlags(2),
        "kernel-image"@,
    ) + region_items(
        entries,
        entries.len() as int,
        RegionKind::Framebuffer,
        MemFlags(1),
        "framebuffer"@,
    ) + one(memory(f.bitmap.phys, f.bitmap.pages, MemFlags(2)), "frame-bitmap"@) + module_items(
        modules,
        modules.len() as int,
        f.hhdm,
    ) + one(memory(0, f.total_frames as u32, MemFlags(2)), "physical-memory"@) + one(
        kernel_space(f),
        "kernel-space"@,
    )
}

pub open spec fn kernel_space(f: Facts) -> Body {
    Body::AddressSpace(
        AddressSpace { pml4_phys: f.active_pml4, is_kernel: 1, ..AddressSpace::spec_zero() },
    )
}

fn memory_item<'a>(base: u64, pages: u32, flags: MemFlags, name: BootName<'a>) -> (r: BootItem<'a>)
    ensures
        r.asked() == (Asked {
            body: memory(base, pages, flags),
            name: name.text(),
            strict: name is Must,
        }),
{
    BootItem {
        body: BootBody::Memory(
            MemoryObject { phys_base: base, pages, flags, ..MemoryObject::zero() },
        ),
        name,
    }
}

proof fn asked_push(s: Seq<BootItem<'_>>, x: BootItem<'_>)
    ensures
        asked_all(s.push(x)) == asked_all(s).push(x.asked()),
{
    assert(asked_all(s.push(x)) =~= asked_all(s).push(x.asked()));
}

/// Append the regions of one kind.
fn push_regions<'a>(
    entries: &[Region],
    kind: RegionKind,
    flags: MemFlags,
    name: &'a str,
    out: &mut Vec<BootItem<'a>>,
)
    ensures
        asked_all(final(out)@) == asked_all(old(out)@) + region_items(
            entries@,
            entries@.len() as int,
            kind,
            flags,
            name@,
        ),
{
    let ghost o = asked_all(out@);
    let mut seen: bool = false;
    let mut i: usize = 0;
    assert(asked_all(out@) =~= o + region_items(entries@, 0, kind, flags, name@));
    while i < entries.len()
        invariant
            i <= entries@.len(),
            o == asked_all(old(out)@),
            asked_all(out@) == o + region_items(entries@, i as int, kind, flags, name@),
            seen <==> region_items(entries@, i as int, kind, flags, name@).len() > 0,
        decreases entries@.len() - i,
    {
        let e = entries[i];
        if e.kind == kind {
            let n = if seen {
                BootName::Unnamed
            } else {
                BootName::Must(name)
            };
            let item = memory_item(e.base, pages_for(e.length), flags, n);
            proof {
                asked_push(out@, item);
            }
            out.push(item);
            seen = true;
            assert(asked_all(out@) =~= o + region_items(entries@, i + 1, kind, flags, name@));
        }
        i = i + 1;
    }
}

/// Append the modules.
fn push_modules<'a>(modules: &Vec<Module<'a>>, hhdm: u64, out: &mut Vec<BootItem<'a>>)
    ensures
        asked_all(final(out)@) == asked_all(old(out)@) + module_items(
            modules@,
            modules@.len() as int,
            hhdm,
        ),
{
    let ghost o = asked_all(out@);
    let mut i: usize = 0;
    assert(asked_all(out@) =~= o + module_items(modules@, 0, hhdm));
    while i < modules.len()
        invariant
            i <= modules@.len(),
            o == asked_all(old(out)@),
            asked_all(out@) == o + module_items(modules@, i as int, hhdm),
        decreases modules@.len() - i,
    {
        let m = modules[i];
        // Name the first few modules; long paths would need a string table.
        let n = if i < 4 {
            BootName::May(short_name(m.path))
        } else {
            BootName::Unnamed
        };
        let phys: u64 = if m.addr >= hhdm {
            m.addr - hhdm
        } else {
            0
        };
        let item = memory_item(phys, pages_for(m.size), MemFlags::pinned(), n);
        proof {
            asked_push(out@, item);
        }
        out.push(item);
        assert(asked_all(out@) =~= o + module_items(modules@, i + 1, hhdm));
        i = i + 1;
    }
}

/// The script for a machine.
pub fn script<'a>(entries: &[Region], modules: &Vec<Module<'a>>, f: Facts) -> (r: Vec<BootItem<'a>>)
    ensures
        asked_all(r@) == boot_script(entries@, modules@, f),
{
    let mut out: Vec<BootItem<'a>> = Vec::new();
    let cpu = BootItem { body: BootBody::Cpu(Cpu::zero()), name: BootName::Must("cpu0") };
    proof {
        asked_push(out@, cpu);
    }
    out.push(cpu);
    assert(asked_all(out@) =~= one(Body::Cpu(Cpu::spec_zero()), "cpu0"@));
    // The kernel image and what the bootloader loaded with it. These are
    // pinned: the reaper must never hand them back.
    push_regions(
        entries,
        RegionKind::ExecutableAndModules,
        MemFlags::pinned(),
        "kernel-image",
        &mut out,
    );
    // The framebuffer is device memory, not RAM: a memory object with a flag,
    // not a device node.
    push_regions(entries, RegionKind::Framebuffer, MemFlags::device(), "framebuffer", &mut out);
    let ghost a = asked_all(out@);
    // The frame allocator's own bookkeeping. It is not in the graph, but the
    // memory it occupies is, which is what keeps the accounting honest.
    let bm = memory_item(
        f.bitmap.phys,
        f.bitmap.pages,
        MemFlags::pinned(),
        BootName::Must("frame-bitmap"),
    );
    proof {
        asked_push(out@, bm);
    }
    out.push(bm);
    assert(asked_all(out@) =~= a + one(
        memory(f.bitmap.phys, f.bitmap.pages, MemFlags(2)),
        "frame-bitmap"@,
    ));
    push_modules(modules, f.hhdm, &mut out);
    let ghost b = asked_all(out@);
    let all = memory_item(
        0,
        #[verifier::truncate]
        (f.total_frames as u32),
        MemFlags::pinned(),
        BootName::Must("physical-memory"),
    );
    proof {
        asked_push(out@, all);
    }
    out.push(all);
    let ghost c = asked_all(out@);
    assert(c =~= b + one(memory(0, f.total_frames as u32, MemFlags(2)), "physical-memory"@));
    let space = BootItem {
        body: BootBody::Space(
            AddressSpace { pml4_phys: f.active_pml4, is_kernel: 1, ..AddressSpace::zero() },
        ),
        name: BootName::Must("kernel-space"),
    };
    proof {
        asked_push(out@, space);
    }
    out.push(space);
    assert(asked_all(out@) =~= c + one(kernel_space(f), "kernel-space"@));
    out
}

} // verus!

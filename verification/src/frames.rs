//! The physical frame allocator: a bitmap, deliberately outside the graph.
//!
//! A set of free frames is not a relationship, and modelling one node per frame
//! would make the graph a million nodes that say nothing. Nothing has a
//! relationship with a free frame; the moment a frame is handed out and
//! outlives the call, a `MemoryObject` node describes it.

use vstd::prelude::*;

verus! {

/// Where the next sweep starts once a run of frames from `at` on is back: no
/// later than there.
pub open spec fn hint_back(h: int, at: int) -> int {
    if at < 1 {
        1
    } else if at < h {
        at
    } else {
        h
    }
}

/// Where the next sweep starts once every run of frames that `given` holds of
/// is back: at the lowest of them, unless it would have started lower already.
pub open spec fn lowered(h0: int, h1: int, given: spec_fn(int) -> bool) -> bool {
    &&& h1 <= h0
    &&& forall|f: int| #[trigger] given(f) ==> h1 <= hint_back(h0, f)
    &&& h1 < h0 ==> exists|f: int| #[trigger] given(f) && h1 == hint_back(h0, f)
}

/// Nothing came back.
pub proof fn lowered_none(h: int, given: spec_fn(int) -> bool)
    requires
        forall|f: int| !#[trigger] given(f),
    ensures
        lowered(h, h, given),
{
}

/// What came back first, and what came back then.
pub proof fn lowered_both(
    h0: int,
    h1: int,
    h2: int,
    first: spec_fn(int) -> bool,
    second: spec_fn(int) -> bool,
    given: spec_fn(int) -> bool,
)
    requires
        1 <= h0,
        lowered(h0, h1, first),
        lowered(h1, h2, second),
        forall|f: int| #[trigger] given(f) <==> first(f) || second(f),
    ensures
        lowered(h0, h2, given),
        1 <= h2,
{
    assert forall|f: int| #[trigger] given(f) implies h2 <= hint_back(h0, f) by {
        assert(first(f) || second(f));
    }
    if h2 < h1 {
        let f = choose|f: int| #[trigger] second(f) && h2 == hint_back(h1, f);
        assert(given(f));
        if h1 < h0 {
            let e = choose|e: int| #[trigger] first(e) && h1 == hint_back(h0, e);
        }
    } else if h1 < h0 {
        let f = choose|f: int| #[trigger] first(f) && h1 == hint_back(h0, f);
        assert(given(f));
    }
}

/// One more run came back.
pub proof fn lowered_more(
    h0: int,
    h1: int,
    at: int,
    first: spec_fn(int) -> bool,
    given: spec_fn(int) -> bool,
)
    requires
        1 <= h0,
        lowered(h0, h1, first),
        forall|f: int| #[trigger] given(f) <==> first(f) || f == at,
    ensures
        lowered(h0, hint_back(h1, at), given),
        1 <= hint_back(h1, at),
{
    let second = |f: int| f == at;
    assert(1 <= h1) by {
        if h1 < h0 {
            let e = choose|e: int| #[trigger] first(e) && h1 == hint_back(h0, e);
        }
    }
    assert(second(at));
    lowered_both(h0, h1, hint_back(h1, at), first, second, given);
}

pub const FRAME_SIZE: usize = 4096;

/// One more than the highest frame number a 64-bit address can name.
pub const FRAME_LIMIT: u64 = 0x10_0000_0000_0000;

/// What the bootloader says a stretch of physical memory is.
#[derive(Clone, Copy, Debug, PartialEq, Eq, Structural)]
pub enum RegionKind {
    Usable,
    Reserved,
    AcpiReclaimable,
    AcpiNvs,
    BadMemory,
    BootloaderReclaimable,
    ExecutableAndModules,
    Framebuffer,
    Unknown,
}

impl RegionKind {
    pub open spec fn spec_name(self) -> Seq<char> {
        match self {
            RegionKind::Usable => "usable"@,
            RegionKind::Reserved => "reserved"@,
            RegionKind::AcpiReclaimable => "acpi-reclaim"@,
            RegionKind::AcpiNvs => "acpi-nvs"@,
            RegionKind::BadMemory => "bad"@,
            RegionKind::BootloaderReclaimable => "boot-reclaim"@,
            RegionKind::ExecutableAndModules => "kernel+modules"@,
            RegionKind::Framebuffer => "framebuffer"@,
            RegionKind::Unknown => "unknown"@,
        }
    }

    /// What the boot log calls it.
    pub fn name(&self) -> (r: &'static str)
        ensures
            r@ == self.spec_name(),
    {
        match self {
            RegionKind::Usable => "usable",
            RegionKind::Reserved => "reserved",
            RegionKind::AcpiReclaimable => "acpi-reclaim",
            RegionKind::AcpiNvs => "acpi-nvs",
            RegionKind::BadMemory => "bad",
            RegionKind::BootloaderReclaimable => "boot-reclaim",
            RegionKind::ExecutableAndModules => "kernel+modules",
            RegionKind::Framebuffer => "framebuffer",
            RegionKind::Unknown => "unknown",
        }
    }
}

/// One entry of the bootloader's memory map.
#[derive(Clone, Copy, Debug, PartialEq, Eq, Structural)]
pub struct Region {
    pub base: u64,
    pub length: u64,
    pub kind: RegionKind,
}

impl Region {
    pub open spec fn end(self) -> int {
        self.base + self.length
    }

    /// The region ends inside the physical address space.
    pub open spec fn fits(self) -> bool {
        self.end() <= u64::MAX
    }

    pub open spec fn usable(self) -> bool {
        self.kind == RegionKind::Usable
    }

    /// The region hands over frame `f`.
    pub open spec fn gives(self, f: int) -> bool {
        self.usable() && self.base as int / 4096 <= f < self.base as int / 4096 + self.length as int
            / 4096
    }
}

/// Where the allocator put its own bookkeeping, so the caller can describe it
/// with a `MemoryObject` like every other piece of live memory.
#[derive(Clone, Copy, Debug, PartialEq, Eq, Structural)]
pub struct BitmapRegion {
    pub phys: u64,
    pub pages: u32,
}

/// How the bitmap is laid out for a memory map.
#[derive(Clone, Copy, Debug, PartialEq, Eq, Structural)]
pub struct BitmapPlan {
    pub total_frames: u64,
    pub phys: u64,
    pub pages: u64,
}

/// Where usable memory ends, over the first `n` regions.
pub open spec fn highest(entries: Seq<Region>, n: int) -> int
    decreases n,
{
    if n <= 0 {
        0
    } else {
        let h = highest(entries, n - 1);
        let e = entries[n - 1];
        if e.usable() && e.end() > h {
            e.end()
        } else {
            h
        }
    }
}

pub open spec fn ceil_div(a: int, b: int) -> int {
    (a + b - 1) / b
}

/// The frames a memory map spans.
pub open spec fn frames_in(entries: Seq<Region>) -> int {
    ceil_div(highest(entries, entries.len() as int), 4096)
}

/// The pages a bitmap of that many frames takes.
pub open spec fn bitmap_pages(frames: int) -> int {
    ceil_div(ceil_div(frames, 8), 4096)
}

/// Region `i` is the first usable one of at least `bytes` bytes.
pub open spec fn first_room(entries: Seq<Region>, bytes: int, i: int) -> bool {
    &&& 0 <= i < entries.len()
    &&& entries[i].usable() && entries[i].length >= bytes
    &&& forall|j: int|
        0 <= j < i ==> !((#[trigger] entries[j]).usable() && entries[j].length >= bytes)
}

/// The plan carves the bitmap out of the first usable region large enough.
pub open spec fn is_plan(entries: Seq<Region>, p: BitmapPlan) -> bool {
    &&& p.total_frames == frames_in(entries)
    &&& p.pages == bitmap_pages(frames_in(entries))
    &&& p.phys != 0
    &&& exists|i: int|
        #[trigger] first_room(entries, p.pages * 4096, i) && entries[i].base == p.phys
}

pub proof fn highest_covers(entries: Seq<Region>, n: int)
    requires
        0 <= n <= entries.len(),
        forall|i: int| 0 <= i < entries.len() ==> (#[trigger] entries[i]).fits(),
    ensures
        0 <= highest(entries, n) <= u64::MAX,
        forall|i: int|
            0 <= i < n && (#[trigger] entries[i]).usable() ==> entries[i].end() <= highest(entries, n),
    decreases n,
{
    if n > 0 {
        highest_covers(entries, n - 1);
        assert(entries[n - 1].fits());
    }
}

/// Decide where the bitmap goes. It is the one allocation that cannot come
/// from the allocator itself. There is no plan where no usable region is large
/// enough, or where the first that is starts at address zero.
pub fn plan(entries: &[Region]) -> (r: Option<BitmapPlan>)
    requires
        forall|i: int| 0 <= i < entries@.len() ==> (#[trigger] entries@[i]).fits(),
    ensures
        r matches Some(p) ==> is_plan(entries@, p),
        r is None ==> forall|p: BitmapPlan| !is_plan(entries@, p),
{
    let mut high: u64 = 0;
    let mut i: usize = 0;
    while i < entries.len()
        invariant
            i <= entries@.len(),
            high == highest(entries@, i as int),
            forall|i: int| 0 <= i < entries@.len() ==> (#[trigger] entries@[i]).fits(),
        decreases entries@.len() - i,
    {
        let e = entries[i];
        assert(entries@[i as int].fits());
        if e.kind == RegionKind::Usable && e.base + e.length > high {
            high = e.base + e.length;
        }
        i = i + 1;
    }
    let total: u64 = high / 4096 + if high % 4096 != 0 {
        1u64
    } else {
        0
    };
    let bytes: u64 = (total + 7) / 8;
    let pages: u64 = (bytes + 4095) / 4096;
    proof {
        assert(total == frames_in(entries@));
        assert(pages == bitmap_pages(total as int));
    }
    let len: u64 = pages * 4096;
    let mut k: usize = 0;
    while k < entries.len()
        invariant
            k <= entries@.len(),
            total == frames_in(entries@),
            pages == bitmap_pages(total as int),
            len == pages * 4096,
            forall|j: int|
                0 <= j < k ==> !((#[trigger] entries@[j]).usable() && entries@[j].length >= len),
        decreases entries@.len() - k,
    {
        let e = entries[k];
        if e.kind == RegionKind::Usable && e.length >= len {
            assert(first_room(entries@, len as int, k as int));
            if e.base == 0 {
                proof {
                    assert forall|p: BitmapPlan| !is_plan(entries@, p) by {
                        if is_plan(entries@, p) {
                            let i = choose|i: int|
                                #[trigger] first_room(entries@, p.pages * 4096, i)
                                    && entries@[i].base == p.phys;
                            assert(p.pages * 4096 == len);
                            assert(i == k) by {
                                if i < k {
                                    assert(entries@[i].usable() && entries@[i].length >= len);
                                }
                                if k < i {
                                    assert(entries@[k as int].usable());
                                }
                            }
                        }
                    }
                }
                return None;
            }
            return Some(BitmapPlan { total_frames: total, phys: e.base, pages });
        }
        k = k + 1;
    }
    proof {
        assert forall|p: BitmapPlan| !is_plan(entries@, p) by {
            if is_plan(entries@, p) {
                let i = choose|i: int|
                    #[trigger] first_room(entries@, p.pages * 4096, i) && entries@[i].base == p.phys;
                assert(entries@[i].usable() && entries@[i].length >= len);
            }
        }
    }
    None
}

/// The pool that regions give, once the bitmap has its place: every frame of a
/// usable region but the first of all and the bitmap's own.
pub open spec fn pool_of(entries: Seq<Region>, plan: BitmapPlan, r: FrameAllocator<'_>) -> bool {
    &&& r.total_frames == plan.total_frames
    &&& r.hint == 1
    &&& r.bitmap_phys == plan.phys
    &&& r.bitmap_pages == plan.pages
    &&& forall|f: int| #[trigger]
        r.free(f) <==> f != 0 && !(plan.phys as int / 4096 <= f < plan.phys as int / 4096
            + plan.pages) && exists|i: int|
            0 <= i < entries.len() && (#[trigger] entries[i]).gives(f)
}

pub struct FrameAllocator<'a> {
    /// One bit per frame; 1 means used.
    pub bitmap: &'a mut [u64],
    pub total_frames: usize,
    pub free_frames: usize,
    /// Where to resume scanning, so allocation is not quadratic in practice.
    pub hint: usize,
    pub bitmap_phys: u64,
    pub bitmap_pages: u64,
}

impl<'a> FrameAllocator<'a> {
    /// The words of the bitmap.
    pub open spec fn bits(self) -> Seq<u64> {
        self.bitmap@
    }

    /// Frame `f` is there to be handed out.
    pub open spec fn free(self, f: int) -> bool {
        0 <= f < self.total_frames && !crate::bits::bit(self.bitmap@, f)
    }

    pub open spec fn wf(self) -> bool {
        &&& self.total_frames <= self.bitmap@.len() * 64
        &&& self.total_frames <= FRAME_LIMIT
        &&& self.free_frames == crate::bits::count_clear(self.bitmap@, self.total_frames as int)
        &&& self.hint >= 1
    }

    /// `count` frames from `f` on are free.
    pub open spec fn fits(self, f: int, count: int) -> bool {
        forall|k: int| f <= k < f + count ==> #[trigger] self.free(k)
    }

    /// `f` is the first place, from `from` on, with `count` free frames.
    pub open spec fn first_fit(self, from: int, count: int, f: int) -> bool {
        &&& from <= f
        &&& self.fits(f, count)
        &&& forall|g: int| from <= g < f ==> !#[trigger] self.fits(g, count)
    }

    /// No place from `from` on has `count` free frames.
    pub open spec fn no_fit(self, from: int, count: int) -> bool {
        forall|g: int| from <= g ==> !#[trigger] self.fits(g, count)
    }

    /// Where `count` frames are taken from: the first fit from the hint, or
    /// from the start when there is none.
    pub open spec fn taken_at(self, count: int, f: int) -> bool {
        ||| self.first_fit(self.hint as int, count, f)
        ||| self.no_fit(self.hint as int, count) && self.first_fit(1, count, f)
    }

    /// Everything but the bits, their count and the hint is as it was.
    pub open spec fn same_shape(self, o: FrameAllocator<'_>) -> bool {
        &&& self.total_frames == o.total_frames
        &&& self.bitmap@.len() == o.bitmap@.len()
        &&& self.bitmap_phys == o.bitmap_phys
        &&& self.bitmap_pages == o.bitmap_pages
    }

    fn claim(&mut self, frame: usize)
        requires
            old(self).wf(),
            frame < old(self).total_frames,
        ensures
            final(self).wf(),
            final(self).same_shape(*old(self)),
            final(self).hint == old(self).hint,
            forall|f: int| #[trigger] final(self).free(f) <==> old(self).free(f) && f != frame,
            final(self).free_frames == old(self).free_frames - if old(self).free(frame as int) {
                1int
            } else {
                0
            },
    {
        let w: usize = frame / 64;
        let b: u64 = (frame % 64) as u64;
        let ghost before = self.bitmap@;
        proof {
            reveal(crate::bits::bit);
            crate::bits::count_clear_bound(before, self.total_frames as int);
        }
        if self.bitmap[w] & (1u64 << b) == 0 {
            self.bitmap[w] = self.bitmap[w] | (1u64 << b);
            proof {
                crate::bits::set_in_map(before, self.bitmap@, frame as int);
                crate::bits::count_clear_step(
                    before,
                    self.bitmap@,
                    self.total_frames as int,
                    frame as int,
                );
                crate::bits::count_clear_bound(self.bitmap@, self.total_frames as int);
            }
            self.free_frames = self.free_frames - 1;
        }
    }

    fn release(&mut self, frame: usize)
        requires
            old(self).wf(),
            frame < old(self).total_frames,
        ensures
            final(self).wf(),
            final(self).same_shape(*old(self)),
            final(self).hint == old(self).hint,
            forall|f: int| #[trigger] final(self).free(f) <==> old(self).free(f) || f == frame,
            final(self).free_frames == old(self).free_frames + if old(self).free(frame as int) {
                0int
            } else {
                1
            },
    {
        let w: usize = frame / 64;
        let b: u64 = (frame % 64) as u64;
        let ghost before = self.bitmap@;
        proof {
            reveal(crate::bits::bit);
        }
        if self.bitmap[w] & (1u64 << b) != 0 {
            self.bitmap[w] = self.bitmap[w] & !(1u64 << b);
            proof {
                crate::bits::clear_in_map(before, self.bitmap@, frame as int);
                crate::bits::count_clear_step(
                    before,
                    self.bitmap@,
                    self.total_frames as int,
                    frame as int,
                );
                crate::bits::count_clear_bound(self.bitmap@, self.total_frames as int);
            }
            self.free_frames = self.free_frames + 1;
        }
    }

    pub fn is_free(&self, frame: usize) -> (r: bool)
        requires
            self.wf(),
            frame < self.total_frames,
        ensures
            r == self.free(frame as int),
    {
        proof {
            reveal(crate::bits::bit);
        }
        self.bitmap[frame / 64] & (1u64 << (frame % 64) as u64) == 0
    }

    pub fn bitmap_region(&self) -> (r: BitmapRegion)
        ensures
            r.phys == self.bitmap_phys,
            r.pages == self.bitmap_pages as u32,
    {
        BitmapRegion { phys: self.bitmap_phys, pages: #[verifier::truncate] (self.bitmap_pages as u32) }
    }

    pub fn total_frames(&self) -> (r: usize)
        ensures
            r == self.total_frames,
    {
        self.total_frames
    }

    pub fn free_frames(&self) -> (r: usize)
        requires
            self.wf(),
        ensures
            r == self.free_frames,
            r == crate::bits::count_clear(self.bits(), self.total_frames as int),
    {
        self.free_frames
    }

    pub fn used_frames(&self) -> (r: usize)
        requires
            self.wf(),
        ensures
            r == self.total_frames - self.free_frames,
    {
        proof {
            crate::bits::count_clear_bound(self.bitmap@, self.total_frames as int);
        }
        self.total_frames - self.free_frames
    }

    /// One sweep for `count` free frames in a row.
    fn sweep(&self, start: usize, count: usize) -> (r: Option<usize>)
        requires
            self.wf(),
            count > 0,
        ensures
            r matches Some(f) ==> self.first_fit(start as int, count as int, f as int) && f + count
                <= self.total_frames,
            r is None ==> self.no_fit(start as int, count as int),
    {
        let mut f: usize = start;
        while f < self.total_frames && count <= self.total_frames - f
            invariant
                self.wf(),
                count > 0,
                start <= f,
                forall|g: int| start <= g < f ==> !#[trigger] self.fits(g, count as int),
            decreases self.total_frames as int + 64 - f,
        {
            // Skip whole words that are fully used.
            if count == 1 && f % 64 == 0 && self.bitmap[f / 64] == u64::MAX {
                proof {
                    assert forall|g: int| start <= g < f + 64 implies !#[trigger] self.fits(
                        g,
                        count as int,
                    ) by {
                        if g >= f {
                            reveal(crate::bits::bit);
                            crate::bits::full_word((g % 64) as u64);
                            assert(g / 64 == f / 64);
                            assert(!self.free(g));
                        }
                    }
                }
                if usize::MAX - f < 64 {
                    proof {
                        assert forall|g: int| start <= g implies !#[trigger] self.fits(
                            g,
                            count as int,
                        ) by {
                            if g >= f + 64 {
                                assert(!self.free(g));
                            }
                        }
                    }
                    return None;
                }
                f = f + 64;
            } else {
                let mut k: usize = 0;
                while k < count && self.is_free(f + k)
                    invariant
                        self.wf(),
                        k <= count,
                        f + count <= self.total_frames,
                        forall|j: int| f <= j < f + k ==> #[trigger] self.free(j),
                    decreases count - k,
                {
                    k = k + 1;
                }
                if k == count {
                    return Some(f);
                }
                proof {
                    let blocked = f + k;
                    assert(!self.free(blocked));
                    assert forall|g: int| start <= g < f + k + 1 implies !#[trigger] self.fits(
                        g,
                        count as int,
                    ) by {
                        if g >= f {
                            assert(g <= blocked < g + count);
                        }
                    }
                }
                f = f + k + 1;
            }
        }
        proof {
            assert forall|g: int| start <= g implies !#[trigger] self.fits(g, count as int) by {
                if g >= f {
                    assert(!self.free(g + count - 1));
                }
            }
        }
        None
    }

    /// Allocate one frame. Returns its physical address.
    pub fn allocate(&mut self) -> (r: Option<u64>)
        requires
            old(self).wf(),
        ensures
            final(self).wf(),
            final(self).same_shape(*old(self)),
            r matches Some(a) ==> {
                &&& a % 4096 == 0
                &&& a > 0
                &&& old(self).taken_at(1, a as int / 4096)
                &&& old(self).free(a as int / 4096)
                &&& forall|f: int| #[trigger]
                    final(self).free(f) <==> old(self).free(f) && f != a as int / 4096
                &&& final(self).free_frames == old(self).free_frames - 1
                &&& final(self).hint == a as int / 4096 + 1
            },
            r is None ==> *final(self) == *old(self) && old(self).no_fit(1, 1),
    {
        let r = self.alloc_contiguous(1);
        proof {
            if let Some(a) = r {
                assert(old(self).fits(a as int / 4096, 1));
                assert(old(self).free(a as int / 4096));
            }
        }
        r
    }

    /// Allocate `count` physically contiguous frames, which is what a
    /// `MemoryObject` describes.
    pub fn alloc_contiguous(&mut self, count: usize) -> (r: Option<u64>)
        requires
            old(self).wf(),
        ensures
            final(self).wf(),
            final(self).same_shape(*old(self)),
            r matches Some(a) ==> {
                let at = a as int / 4096;
                &&& count > 0
                &&& a % 4096 == 0
                &&& a > 0
                &&& old(self).taken_at(count as int, at)
                &&& at + count <= old(self).total_frames
                &&& forall|f: int| #[trigger]
                    final(self).free(f) <==> old(self).free(f) && !(at <= f < at + count)
                &&& final(self).free_frames == old(self).free_frames - count
                &&& final(self).hint == at + count
            },
            r is None ==> *final(self) == *old(self) && (count == 0 || old(self).no_fit(
                1,
                count as int,
            )),
    {
        if count == 0 {
            return None;
        }
        // Two sweeps: from the hint, then from the start, so a wrapped scan
        // still finds space without scanning twice in the common case.
        let found = match self.sweep(self.hint, count) {
            Some(f) => Some(f),
            None => self.sweep(1, count),
        };
        let f: usize = match found {
            Some(f) => f,
            None => return None,
        };
        let ghost s0 = *old(self);
        let mut k: usize = 0;
        while k < count
            invariant
                self.wf(),
                self.same_shape(s0),
                self.hint == s0.hint,
                k <= count,
                f >= 1,
                f + count <= self.total_frames,
                s0.fits(f as int, count as int),
                forall|g: int| #[trigger] self.free(g) <==> s0.free(g) && !(f <= g < f + k),
                self.free_frames == s0.free_frames - k,
            decreases count - k,
        {
            assert(s0.free(f + k));
            self.claim(f + k);
            k = k + 1;
        }
        let ghost s1 = *self;
        self.hint = f + count;
        assert forall|g: int| #[trigger] self.free(g) <==> s1.free(g) by {}
        Some((f as u64) * 4096)
    }

    /// Return frames to the pool. Called by the reaper when a `MemoryObject`
    /// that owns real RAM is reclaimed.
    pub fn free_contiguous(&mut self, phys: u64, count: usize)
        requires
            old(self).wf(),
            phys as int / 4096 + count <= usize::MAX,
        ensures
            final(self).wf(),
            final(self).same_shape(*old(self)),
            forall|f: int| #[trigger]
                final(self).free(f) <==> old(self).free(f) || (phys as int / 4096 <= f < phys as int
                    / 4096 + count && f < old(self).total_frames),
            final(self).free_frames >= old(self).free_frames,
            final(self).hint == hint_back(old(self).hint as int, phys as int / 4096),
    {
        let first: usize = (phys / 4096) as usize;
        let ghost s0 = *old(self);
        let mut k: usize = 0;
        while k < count
            invariant
                self.wf(),
                self.same_shape(s0),
                self.hint == s0.hint,
                k <= count,
                first + count <= usize::MAX,
                forall|g: int| #[trigger]
                    self.free(g) <==> s0.free(g) || (first <= g < first + k && g < s0.total_frames),
                self.free_frames >= s0.free_frames,
            decreases count - k,
        {
            if first + k < self.total_frames {
                self.release(first + k);
            }
            k = k + 1;
        }
        let low: usize = if first < 1 {
            1
        } else {
            first
        };
        let ghost s1 = *self;
        if low < self.hint {
            self.hint = low;
        }
        assert forall|g: int| #[trigger] self.free(g) <==> s1.free(g) by {}
    }

    /// Build the allocator from the bootloader's memory map, in a bitmap of
    /// the size that was planned for it.
    pub fn new(entries: &[Region], plan: BitmapPlan, bitmap: &'a mut [u64]) -> (r: FrameAllocator<
        'a,
    >)
        requires
            forall|i: int| 0 <= i < entries@.len() ==> (#[trigger] entries@[i]).fits(),
            is_plan(entries@, plan),
            old(bitmap)@.len() == plan.pages * 512,
            plan.total_frames <= usize::MAX,
        ensures
            r.wf(),
            pool_of(entries@, plan, r),
    {
        let total: usize = plan.total_frames as usize;
        proof {
            highest_covers(entries@, entries@.len() as int);
        }
        // Start with everything used, and release what the map says is usable.
        let mut w: usize = 0;
        while w < bitmap.len()
            invariant
                w <= bitmap@.len(),
                bitmap@.len() == plan.pages * 512,
                forall|j: int| 0 <= j < w ==> bitmap@[j] == u64::MAX,
            decreases bitmap@.len() - w,
        {
            bitmap[w] = u64::MAX;
            w = w + 1;
        }
        proof {
            assert forall|j: int| 0 <= j < bitmap@.len() * 64 implies #[trigger] crate::bits::bit(
                bitmap@,
                j,
            ) by {
                reveal(crate::bits::bit);
                crate::bits::full_word((j % 64) as u64);
            }
            assert(total <= bitmap@.len() * 64);
            crate::bits::count_clear_full(bitmap@, total as int);
        }
        let mut fa = FrameAllocator {
            bitmap,
            total_frames: total,
            free_frames: 0,
            hint: 1,
            bitmap_phys: plan.phys,
            bitmap_pages: plan.pages,
        };
        let mut i: usize = 0;
        while i < entries.len()
            invariant
                i <= entries@.len(),
                fa.wf(),
                fa.total_frames == total == plan.total_frames == frames_in(entries@),
                fa.hint == 1,
                fa.bitmap_phys == plan.phys,
                fa.bitmap_pages == plan.pages,
                forall|i: int| 0 <= i < entries@.len() ==> (#[trigger] entries@[i]).fits(),
                forall|i: int|
                    0 <= i < entries@.len() && (#[trigger] entries@[i]).usable() ==> entries@[i].end()
                        <= highest(entries@, entries@.len() as int),
                forall|f: int| #[trigger]
                    fa.free(f) <==> exists|j: int|
                        0 <= j < i && (#[trigger] entries@[j]).gives(f),
            decreases entries@.len() - i,
        {
            let e = entries[i];
            let ghost before = fa;
            assert(entries@[i as int].fits());
            if e.kind == RegionKind::Usable {
                assert(entries@[i as int].usable());
                let first: usize = (e.base / 4096) as usize;
                let count: usize = (e.length / 4096) as usize;
                fa.release_run(first, count);
            }
            proof {
                assert forall|f: int| #[trigger] fa.free(f) <==> exists|j: int|
                    0 <= j < i + 1 && (#[trigger] entries@[j]).gives(f) by {
                    assert(fa.free(f) <==> before.free(f) || entries@[i as int].gives(f));
                    if before.free(f) {
                        let j = choose|j: int| 0 <= j < i && (#[trigger] entries@[j]).gives(f);
                        assert(0 <= j < i + 1 && entries@[j].gives(f));
                    }
                    if exists|j: int| 0 <= j < i + 1 && (#[trigger] entries@[j]).gives(f) {
                        let j = choose|j: int| 0 <= j < i + 1 && (#[trigger] entries@[j]).gives(f);
                        if j < i {
                            assert(before.free(f));
                        }
                    }
                }
            }
            i = i + 1;
        }
        let ghost usable = fa;
        // Frame zero stays used as a null guard, and the bitmap owns its own.
        let ghost room = choose|i: int|
            #[trigger] first_room(entries@, plan.pages * 4096, i) && entries@[i].base == plan.phys;
        assert(entries@[room].usable());
        assert(entries@[room].fits());
        if total > 0 {
            fa.claim(0);
        }
        let first: usize = (plan.phys / 4096) as usize;
        let pages: usize = plan.pages as usize;
        let ghost zeroed = fa;
        let mut k: usize = 0;
        while k < pages
            invariant
                k <= pages,
                pages == plan.pages,
                first == plan.phys as int / 4096,
                first + pages <= total,
                fa.wf(),
                fa.total_frames == total == plan.total_frames,
                fa.hint == 1,
                fa.bitmap_phys == plan.phys,
                fa.bitmap_pages == plan.pages,
                forall|f: int| #[trigger]
                    fa.free(f) <==> zeroed.free(f) && !(first <= f < first + k),
            decreases pages - k,
        {
            fa.claim(first + k);
            k = k + 1;
        }
        proof {
            assert forall|f: int| #[trigger] fa.free(f) <==> f != 0 && !(plan.phys as int / 4096
                <= f < plan.phys as int / 4096 + plan.pages) && exists|i: int|
                0 <= i < entries@.len() && (#[trigger] entries@[i]).gives(f) by {
                assert(fa.free(f) <==> zeroed.free(f) && !(first <= f < first + pages));
                assert(zeroed.free(f) <==> usable.free(f) && f != 0);
            }
        }
        fa
    }

    fn release_run(&mut self, first: usize, count: usize)
        requires
            old(self).wf(),
            first + count <= old(self).total_frames,
        ensures
            final(self).wf(),
            final(self).same_shape(*old(self)),
            final(self).hint == old(self).hint,
            forall|f: int| #[trigger]
                final(self).free(f) <==> old(self).free(f) || first <= f < first + count,
    {
        let ghost s0 = *old(self);
        let mut k: usize = 0;
        while k < count
            invariant
                self.wf(),
                self.same_shape(s0),
                self.hint == s0.hint,
                k <= count,
                first + count <= self.total_frames,
                forall|g: int| #[trigger]
                    self.free(g) <==> s0.free(g) || first <= g < first + k,
            decreases count - k,
        {
            self.release(first + k);
            k = k + 1;
        }
    }
}

} // verus!

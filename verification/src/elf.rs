//! A minimal static ELF64 loader.
//!
//! Enough to load a position-dependent, statically linked executable and no
//! more: no dynamic linking, no relocations, no interpreter. Programs are boot
//! modules built together with the kernel, so anything else would be machinery
//! for a case that cannot arise.

use vstd::prelude::*;

use crate::mem::{read_u16, read_u32, read_u64};

verus! {

pub const PT_LOAD: u32 = 1;
pub const PF_X: u32 = 1;
pub const PF_W: u32 = 2;
pub const PF_R: u32 = 4;

#[derive(Clone, Copy, Debug, PartialEq, Eq, Structural)]
pub enum ElfError {
    TooSmall,
    NotAnElf,
    NotX86_64,
    NotExecutable,
    BadProgramHeaders,
    NoLoadableSegments,
}

#[derive(Clone, Copy, Debug, PartialEq, Eq, Structural)]
pub struct Segment {
    pub vaddr: u64,
    pub offset: u64,
    pub file_size: u64,
    pub mem_size: u64,
    pub flags: u32,
}

impl Segment {
    /// Where the segment ends in memory.
    pub open spec fn end(self) -> int {
        self.vaddr + self.mem_size
    }

    /// The segment, rounded out to pages, ends inside the 64-bit space.
    pub open spec fn fits(self) -> bool {
        self.end() + 4095 <= u64::MAX
    }

    /// The page the segment starts in.
    pub open spec fn low(self) -> int {
        self.vaddr as int / 4096 * 4096
    }

    /// The end of the page the segment ends in.
    pub open spec fn high(self) -> int {
        (self.end() + 4095) / 4096 * 4096
    }
}

pub struct Image<'a> {
    pub bytes: &'a [u8],
    pub entry: u64,
    pub ph_offset: u64,
    pub ph_entry_size: u16,
    pub ph_count: u16,
}

/// Why a file is not an image, if it is not.
pub open spec fn parse_error(b: Seq<u8>) -> Option<ElfError> {
    if b.len() < 64 {
        Some(ElfError::TooSmall)
    } else if !(b[0] == 0x7f && b[1] == 0x45 && b[2] == 0x4c && b[3] == 0x46) {
        Some(ElfError::NotAnElf)
    } else if b[4] != 2 || b[5] != 1 || crate::mem::le16(b, 18) != 0x3E {
        Some(ElfError::NotX86_64)
    } else if crate::mem::le16(b, 16) != 2 {
        Some(ElfError::NotExecutable)
    } else if crate::mem::le16(b, 54) < 56 || crate::edge::le64(b, 32) + crate::mem::le16(b, 56)
        * crate::mem::le16(b, 54) > b.len() {
        Some(ElfError::BadProgramHeaders)
    } else {
        None
    }
}

/// The loadable segment that a program header describes, if it describes one
/// whose bytes are in the file.
pub open spec fn segment_at(b: Seq<u8>, at: int) -> Option<Segment> {
    let s = Segment {
        flags: crate::edge::le32(b, at + 4),
        offset: crate::edge::le64(b, at + 8),
        vaddr: crate::edge::le64(b, at + 16),
        file_size: crate::edge::le64(b, at + 32),
        mem_size: crate::edge::le64(b, at + 40),
    };
    if crate::edge::le32(b, at) == PT_LOAD && s.file_size <= s.mem_size && s.offset + s.file_size
        <= b.len() {
        Some(s)
    } else {
        None
    }
}

/// The lowest page any of the segments starts in.
pub open spec fn lowest(s: Seq<Segment>) -> int
    decreases s.len(),
{
    if s.len() == 0 {
        u64::MAX as int
    } else {
        let l = lowest(s.drop_last());
        if s.last().low() < l {
            s.last().low()
        } else {
            l
        }
    }
}

/// The highest page end of any of the segments.
pub open spec fn highest(s: Seq<Segment>) -> int
    decreases s.len(),
{
    if s.len() == 0 {
        0
    } else {
        let h = highest(s.drop_last());
        if s.last().high() > h {
            s.last().high()
        } else {
            h
        }
    }
}

/// Every segment lies between the lowest and the highest page.
pub proof fn span_holds_all(s: Seq<Segment>)
    ensures
        forall|i: int| 0 <= i < s.len() ==> lowest(s) <= (#[trigger] s[i]).low() && s[i].high() <= highest(s),
        lowest(s) <= u64::MAX,
        highest(s) >= 0,
        lowest(s) == u64::MAX || lowest(s) % 4096 == 0,
        highest(s) % 4096 == 0,
        s.len() > 0 && (forall|i: int| 0 <= i < s.len() ==> (#[trigger] s[i]).fits())
            ==> lowest(s) < u64::MAX,
        s.len() == 0 ==> lowest(s) == u64::MAX,
    decreases s.len(),
{
    if s.len() > 0 {
        let r = s.drop_last();
        span_holds_all(r);
        assert forall|i: int| 0 <= i < s.len() implies lowest(s) <= (#[trigger] s[i]).low()
            && s[i].high() <= highest(s) by {
            if i < r.len() {
                assert(r[i] == s[i]);
            }
        }
        if forall|i: int| 0 <= i < s.len() ==> (#[trigger] s[i]).fits() {
            assert(s[s.len() - 1].fits());
            assert(s.last().low() <= s.last().vaddr);
        }
    }
}

/// Every listed segment has its bytes in the file.
pub proof fn segments_in_file(image: Image<'_>, n: int, i: int)
    requires
        0 <= i < image.segments_below(n).len(),
    ensures
        image.segments_below(n)[i].offset + image.segments_below(n)[i].file_size
            <= image.bytes@.len(),
        image.segments_below(n)[i].file_size <= image.segments_below(n)[i].mem_size,
    decreases n,
{
    if n > 0 {
        if i < image.segments_below(n - 1).len() {
            segments_in_file(image, n - 1, i);
        }
    }
}

impl<'a> Image<'a> {
    /// The program headers lie inside the file.
    pub open spec fn wf(self) -> bool {
        &&& self.ph_entry_size >= 56
        &&& self.ph_offset + self.ph_count * self.ph_entry_size <= self.bytes@.len()
    }

    /// Where program header `i` starts.
    pub open spec fn header_at(self, i: int) -> int {
        self.ph_offset + i * self.ph_entry_size
    }

    /// The loadable segments of the first `n` headers, in file order.
    pub open spec fn segments_below(self, n: int) -> Seq<Segment>
        decreases n,
    {
        if n <= 0 {
            Seq::empty()
        } else {
            match segment_at(self.bytes@, self.header_at(n - 1)) {
                Some(s) => self.segments_below(n - 1).push(s),
                None => self.segments_below(n - 1),
            }
        }
    }

    pub open spec fn spec_segments(self) -> Seq<Segment> {
        self.segments_below(self.ph_count as int)
    }

    /// No segment runs off the end of the address space.
    pub open spec fn fits(self) -> bool {
        forall|i: int|
            0 <= i < self.spec_segments().len() ==> (#[trigger] self.spec_segments()[i]).fits()
    }

    pub fn parse(bytes: &'a [u8]) -> (r: Result<Image<'a>, ElfError>)
        ensures
            match parse_error(bytes@) {
                Some(e) => r == Err::<Image<'a>, ElfError>(e),
                None => {
                    &&& r matches Ok(i) && i.wf() && i.bytes@ == bytes@ && i.entry
                        == crate::edge::le64(bytes@, 24) && i.ph_offset == crate::edge::le64(
                        bytes@,
                        32,
                    ) && i.ph_entry_size == crate::mem::le16(bytes@, 54) && i.ph_count
                        == crate::mem::le16(bytes@, 56)
                },
            },
    {
        if bytes.len() < 64 {
            return Err(ElfError::TooSmall);
        }
        if !(bytes[0] == 0x7f && bytes[1] == 0x45 && bytes[2] == 0x4c && bytes[3] == 0x46) {
            return Err(ElfError::NotAnElf);
        }
        if bytes[4] != 2 || bytes[5] != 1 {
            return Err(ElfError::NotX86_64);  // 64-bit, little endian
        }
        if read_u16(bytes, 18) != 0x3E {
            return Err(ElfError::NotX86_64);
        }
        // Fixed-address executables only. A position-independent one would
        // need relocations, and there is nothing to relocate with.
        if read_u16(bytes, 16) != 2 {
            return Err(ElfError::NotExecutable);
        }
        let entry: u64 = read_u64(bytes, 24);
        let ph_offset: u64 = read_u64(bytes, 32);
        let ph_entry_size: u16 = read_u16(bytes, 54);
        let ph_count: u16 = read_u16(bytes, 56);
        proof {
            assert(ph_count * ph_entry_size <= 65535 * 65535) by (nonlinear_arith)
                requires
                    0 <= ph_count <= 65535,
                    0 <= ph_entry_size <= 65535,
            ;
        }
        if ph_entry_size < 56 || ph_offset as u128 + (ph_count as u64 * ph_entry_size as u64) as u128
            > bytes.len() as u128 {
            return Err(ElfError::BadProgramHeaders);
        }
        Ok(Image { bytes, entry, ph_offset, ph_entry_size, ph_count })
    }

    /// The loadable segments, in file order.
    pub fn segments(&self) -> (r: Vec<Segment>)
        requires
            self.wf(),
        ensures
            r@ == self.spec_segments(),
    {
        let b = self.bytes;
        let mut out: Vec<Segment> = Vec::new();
        let mut i: u16 = 0;
        while i < self.ph_count
            invariant
                self.wf(),
                b == self.bytes,
                i <= self.ph_count,
                out@ == self.segments_below(i as int),
            decreases self.ph_count - i,
        {
            proof {
                assert((i + 1) * self.ph_entry_size <= self.ph_count * self.ph_entry_size)
                    by (nonlinear_arith)
                    requires
                        i + 1 <= self.ph_count,
                        self.ph_entry_size >= 56,
                ;
                assert((i + 1) * self.ph_entry_size == i * self.ph_entry_size + self.ph_entry_size)
                    by (nonlinear_arith);
                assert(0 <= i * self.ph_entry_size) by (nonlinear_arith)
                    requires
                        i >= 0,
                        self.ph_entry_size >= 56,
                ;
                assert(b.len() == b@.len());
            }
            let at: usize = self.ph_offset as usize + (i as usize) * (self.ph_entry_size as usize);
            let seg = Segment {
                flags: read_u32(b, at + 4),
                offset: read_u64(b, at + 8),
                vaddr: read_u64(b, at + 16),
                file_size: read_u64(b, at + 32),
                mem_size: read_u64(b, at + 40),
            };
            if read_u32(b, at) == PT_LOAD && seg.file_size <= seg.mem_size && seg.offset as u128
                + seg.file_size as u128 <= b.len() as u128 {
                out.push(seg);
            }
            i = i + 1;
        }
        out
    }

    /// The page-aligned span every loadable segment falls inside.
    pub fn span(&self) -> (r: Result<(u64, u64), ElfError>)
        requires
            self.wf(),
            self.fits(),
        ensures
            self.spec_segments().len() == 0 ==> r == Err::<(u64, u64), ElfError>(
                ElfError::NoLoadableSegments,
            ),
            self.spec_segments().len() > 0 ==> (r matches Ok((lo, hi)) && lo == lowest(
                self.spec_segments(),
            ) && hi == highest(self.spec_segments())),
    {
        let segs = self.segments();
        let mut lo: u64 = u64::MAX;
        let mut hi: u64 = 0;
        let mut i: usize = 0;
        while i < segs.len()
            invariant
                i <= segs@.len(),
                segs@ == self.spec_segments(),
                self.fits(),
                lo == lowest(segs@.take(i as int)),
                hi == highest(segs@.take(i as int)),
            decreases segs@.len() - i,
        {
            let s = segs[i];
            assert(self.spec_segments()[i as int].fits());
            proof {
                assert(segs@.take(i + 1).drop_last() =~= segs@.take(i as int));
                assert(segs@.take(i + 1).last() == s);
            }
            let low: u64 = s.vaddr / 4096 * 4096;
            let high: u64 = (s.vaddr + s.mem_size + 4095) / 4096 * 4096;
            if low < lo {
                lo = low;
            }
            if high > hi {
                hi = high;
            }
            i = i + 1;
        }
        proof {
            assert(segs@.take(segs@.len() as int) =~= segs@);
            span_holds_all(segs@);
        }
        if lo == u64::MAX {
            return Err(ElfError::NoLoadableSegments);
        }
        Ok((lo, hi))
    }

    /// The bytes of one segment as they appear in the file.
    pub fn segment_data(&self, seg: &Segment) -> (r: &'a [u8])
        requires
            seg.offset + seg.file_size <= self.bytes@.len(),
        ensures
            r@ == self.bytes@.subrange(seg.offset as int, seg.offset + seg.file_size),
    {
        assert(self.bytes.len() == self.bytes@.len());
        let start: usize = seg.offset as usize;
        vstd::slice::slice_subrange(self.bytes, start, start + seg.file_size as usize)
    }
}

} // verus!

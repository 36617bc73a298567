//! A scrolling text console on the framebuffer.
//!
//! Deliberately simple: no double buffering, no cursor, no escape sequences.
//! Its job is to prove the machine is alive and to show a status banner;
//! anything the host needs to parse goes over the serial port instead.

use vstd::prelude::*;

use crate::mem::write_u32;

verus! {

pub const GLYPH_W: usize = 8;
pub const GLYPH_H: usize = 16;

#[derive(Clone, Copy, Debug, PartialEq, Eq, Structural)]
pub struct Rgb(pub u8, pub u8, pub u8);

/// The ordinary text colour.
pub open spec fn spec_foreground() -> Rgb {
    Rgb(0xC8, 0xD0, 0xC8)
}

#[verifier::when_used_as_spec(spec_foreground)]
pub fn foreground() -> (r: Rgb)
    ensures
        r == spec_foreground(),
{
    Rgb(0xC8, 0xD0, 0xC8)
}

pub open spec fn spec_background() -> Rgb {
    Rgb(0x0C, 0x10, 0x0E)
}

#[verifier::when_used_as_spec(spec_background)]
pub fn background() -> (r: Rgb)
    ensures
        r == spec_background(),
{
    Rgb(0x0C, 0x10, 0x0E)
}

pub open spec fn spec_accent() -> Rgb {
    Rgb(0x86, 0xC2, 0x32)
}

#[verifier::when_used_as_spec(spec_accent)]
pub fn accent() -> (r: Rgb)
    ensures
        r == spec_accent(),
{
    Rgb(0x86, 0xC2, 0x32)
}

pub open spec fn spec_alert() -> Rgb {
    Rgb(0xE0, 0x5A, 0x4A)
}

#[verifier::when_used_as_spec(spec_alert)]
pub fn alert() -> (r: Rgb)
    ensures
        r == spec_alert(),
{
    Rgb(0xE0, 0x5A, 0x4A)
}

/// How the pixels are laid out. Copied out of the bootloader's response so
/// nothing later needs the bootloader's structures.
#[derive(Clone, Copy, Debug, PartialEq, Eq, Structural)]
pub struct Surface {
    pub width: usize,
    pub height: usize,
    pub pitch: usize,
    pub bpp: usize,
    pub red_shift: u8,
    pub green_shift: u8,
    pub blue_shift: u8,
}

impl Surface {
    /// Where a pixel starts.
    pub open spec fn at(self, x: int, y: int) -> int {
        y * self.pitch + x * (self.bpp as int / 8)
    }

    /// Every pixel lies inside that many bytes, and every colour inside a
    /// pixel.
    pub open spec fn fits(self, len: nat) -> bool {
        &&& self.red_shift < 32 && self.green_shift < 32 && self.blue_shift < 32
        &&& len <= usize::MAX
        &&& self.height * self.pitch <= len
        &&& forall|x: int, y: int|
            0 <= x < self.width && 0 <= y < self.height ==> 0 <= #[trigger] self.at(x, y)
                && self.at(x, y) + 4 <= len
    }

    pub open spec fn code(self, c: Rgb) -> u32 {
        ((c.0 as u32) << self.red_shift as u32) | ((c.1 as u32) << self.green_shift as u32) | ((
        c.2 as u32) << self.blue_shift as u32)
    }

    fn encode(&self, c: Rgb) -> (r: u32)
        requires
            self.red_shift < 32,
            self.green_shift < 32,
            self.blue_shift < 32,
        ensures
            r == self.code(c),
    {
        ((c.0 as u32) << self.red_shift as u32) | ((c.1 as u32) << self.green_shift as u32) | ((
        c.2 as u32) << self.blue_shift as u32)
    }

    /// The bytes with one pixel painted. A pixel outside the surface is none.
    pub open spec fn painted(self, fb: Seq<u8>, x: int, y: int, c: Rgb) -> Seq<u8> {
        if 0 <= x < self.width && 0 <= y < self.height {
            crate::mem::overwritten(fb, self.at(x, y), crate::edge::u32_bytes(self.code(c)))
        } else {
            fb
        }
    }

    /// The bytes with the first `n` pixels of a row painted.
    pub open spec fn row_painted(self, fb: Seq<u8>, x: int, y: int, n: int, c: Rgb) -> Seq<u8>
        decreases n,
    {
        if n <= 0 {
            fb
        } else {
            self.painted(self.row_painted(fb, x, y, n - 1, c), x + n - 1, y, c)
        }
    }

    /// The bytes with a rectangle painted.
    pub open spec fn rect_painted(
        self,
        fb: Seq<u8>,
        x: int,
        y: int,
        w: int,
        h: int,
        c: Rgb,
    ) -> Seq<u8>
        decreases h,
    {
        if h <= 0 {
            fb
        } else {
            self.row_painted(self.rect_painted(fb, x, y, w, h - 1, c), x, y + h - 1, w, c)
        }
    }

    /// The bytes with the first `n` columns of one row of a glyph painted.
    pub open spec fn bits_painted(
        self,
        fb: Seq<u8>,
        x: int,
        y: int,
        bits: u8,
        n: int,
        c: Rgb,
    ) -> Seq<u8>
        decreases n,
    {
        if n <= 0 {
            fb
        } else {
            let b = self.bits_painted(fb, x, y, bits, n - 1, c);
            if bits & (0x80u8 >> (n - 1) as u8) != 0 {
                self.painted(b, x + n - 1, y, c)
            } else {
                b
            }
        }
    }

    /// The bytes with the first `n` rows of a glyph painted.
    pub open spec fn glyph_painted(
        self,
        fb: Seq<u8>,
        x: int,
        y: int,
        font: Seq<u8>,
        ch: u8,
        n: int,
        c: Rgb,
    ) -> Seq<u8>
        decreases n,
    {
        if n <= 0 {
            fb
        } else {
            self.bits_painted(
                self.glyph_painted(fb, x, y, font, ch, n - 1, c),
                x,
                y + n - 1,
                font[16 * ch + n - 1],
                8,
                c,
            )
        }
    }

    /// The bytes moved up by one line of text, with the last line cleared.
    pub open spec fn scrolled(self, fb: Seq<u8>) -> Seq<u8> {
        self.rect_painted(
            self.moved_up(fb),
            0,
            self.height - GLYPH_H,
            self.width as int,
            GLYPH_H as int,
            background(),
        )
    }

    pub open spec fn moved_up(self, fb: Seq<u8>) -> Seq<u8> {
        let line = GLYPH_H * self.pitch;
        let total = self.height * self.pitch;
        crate::mem::overwritten(fb, 0, fb.subrange(line, total))
    }
}

pub struct Console {
    pub surface: Option<Surface>,
    pub col: usize,
    pub row: usize,
    pub cols: usize,
    pub rows: usize,
    pub fg: Rgb,
}

impl Console {
    /// The console can be drawn on in a framebuffer of that many bytes.
    pub open spec fn fits(self, len: nat) -> bool {
        self.surface matches Some(s) ==> s.fits(len)
    }

    /// The text grid is the surface's, and the cursor is on it.
    pub open spec fn wf(self) -> bool {
        self.surface matches Some(s) ==> {
            &&& self.cols == s.width / 8
            &&& self.rows == s.height / 16
            &&& self.col <= self.cols + 1
            &&& self.row <= self.rows
            &&& s.width < 0x8000_0000
            &&& s.height < 0x8000_0000
        }
    }

    /// There is room for a line of text.
    pub open spec fn writable(self) -> bool {
        self.surface matches Some(s) ==> s.height >= GLYPH_H
    }

    pub fn new() -> (r: Console)
        ensures
            r == (Console {
                surface: None,
                col: 0,
                row: 0,
                cols: 0,
                rows: 0,
                fg: foreground(),
            }),
    {
        Console { surface: None, col: 0, row: 0, cols: 0, rows: 0, fg: foreground() }
    }

    pub fn attach(&mut self, fb: &mut [u8], s: Surface)
        requires
            s.fits(old(fb)@.len()),
            s.width < 0x8000_0000,
            s.height < 0x8000_0000,
        ensures
            *final(self) == (Console {
                surface: Some(s),
                col: 0,
                row: 0,
                cols: (s.width / 8) as usize,
                rows: (s.height / 16) as usize,
                fg: old(self).fg,
            }),
            final(self).wf(),
            final(fb)@ == s.rect_painted(
                old(fb)@,
                0,
                0,
                s.width as int,
                s.height as int,
                background(),
            ),
            final(fb)@.len() == old(fb)@.len(),
    {
        self.cols = s.width / GLYPH_W;
        self.rows = s.height / GLYPH_H;
        self.surface = Some(s);
        self.col = 0;
        self.row = 0;
        self.clear(fb);
    }

    pub fn is_attached(&self) -> (r: bool)
        ensures
            r == (self.surface is Some),
    {
        self.surface.is_some()
    }

    pub fn set_colour(&mut self, c: Rgb)
        ensures
            *final(self) == (Console { fg: c, ..*old(self) }),
    {
        self.fg = c;
    }

    pub fn put_pixel(&self, fb: &mut [u8], x: usize, y: usize, c: Rgb)
        requires
            self.fits(old(fb)@.len()),
        ensures
            final(fb)@ == match self.surface {
                Some(s) => s.painted(old(fb)@, x as int, y as int, c),
                None => old(fb)@,
            },
            final(fb)@.len() == old(fb)@.len(),
    {
        let s = match self.surface {
            Some(s) => s,
            None => return,
        };
        if x >= s.width || y >= s.height {
            return;
        }
        let v: u32 = s.encode(c);
        proof {
            assert(s.at(x as int, y as int) + 4 <= fb@.len());
            assert(0 <= y * s.pitch) by (nonlinear_arith);
            assert(0 <= x * (s.bpp as int / 8)) by (nonlinear_arith);
            assert(fb.len() == fb@.len());
        }
        write_u32(fb, y * s.pitch + x * (s.bpp / 8), v);
    }

    pub fn fill_rect(&self, fb: &mut [u8], x: usize, y: usize, w: usize, h: usize, c: Rgb)
        requires
            self.fits(old(fb)@.len()),
            x + w <= usize::MAX,
            y + h <= usize::MAX,
        ensures
            final(fb)@ == match self.surface {
                Some(s) => s.rect_painted(
                    old(fb)@,
                    x as int,
                    y as int,
                    w as int,
                    h as int,
                    c,
                ),
                None => old(fb)@,
            },
            final(fb)@.len() == old(fb)@.len(),
    {
        let ghost f0 = fb@;
        let mut dy: usize = 0;
        while dy < h
            invariant
                dy <= h,
                self.fits(f0.len()),
                fb@.len() == f0.len(),
                f0 == old(fb)@,
                x + w <= usize::MAX,
                y + h <= usize::MAX,
                fb@ == match self.surface {
                    Some(s) => s.rect_painted(f0, x as int, y as int, w as int, dy as int, c),
                    None => f0,
                },
            decreases h - dy,
        {
            let ghost f1 = fb@;
            let mut dx: usize = 0;
            while dx < w
                invariant
                    dx <= w,
                    dy < h,
                    self.fits(f0.len()),
                    fb@.len() == f0.len() == f1.len(),
                    x + w <= usize::MAX,
                    y + h <= usize::MAX,
                    fb@ == match self.surface {
                        Some(s) => s.row_painted(f1, x as int, y + dy, dx as int, c),
                        None => f1,
                    },
                decreases w - dx,
            {
                self.put_pixel(fb, x + dx, y + dy, c);
                dx = dx + 1;
            }
            dy = dy + 1;
        }
    }

    pub fn clear(&mut self, fb: &mut [u8])
        requires
            old(self).fits(old(fb)@.len()),
        ensures
            match old(self).surface {
                Some(s) => {
                    &&& *final(self) == (Console { col: 0, row: 0, ..*old(self) })
                    &&& final(fb)@ == s.rect_painted(
                        old(fb)@,
                        0,
                        0,
                        s.width as int,
                        s.height as int,
                        background(),
                    )
                },
                None => *final(self) == *old(self) && final(fb)@ == old(fb)@,
            },
            final(fb)@.len() == old(fb)@.len(),
    {
        let (w, h): (usize, usize) = match self.surface {
            Some(s) => (s.width, s.height),
            None => return,
        };
        self.fill_rect(fb, 0, 0, w, h, background());
        self.col = 0;
        self.row = 0;
    }

    /// One line up, with an empty line at the bottom.
    pub open spec fn after_scroll(self, s: Surface) -> Console {
        Console {
            row: (if self.rows > 0 {
                self.rows - 1
            } else {
                0
            }) as usize,
            ..self
        }
    }

    fn scroll(&mut self, fb: &mut [u8])
        requires
            old(self).fits(old(fb)@.len()),
            old(self).writable(),
        ensures
            match old(self).surface {
                Some(s) => *final(self) == old(self).after_scroll(s) && final(fb)@ == s.scrolled(
                    old(fb)@,
                ),
                None => *final(self) == *old(self) && final(fb)@ == old(fb)@,
            },
            final(fb)@.len() == old(fb)@.len(),
    {
        let s = match self.surface {
            Some(s) => s,
            None => return,
        };
        let ghost f0 = fb@;
        proof {
            assert(GLYPH_H * s.pitch <= s.height * s.pitch) by (nonlinear_arith)
                requires
                    GLYPH_H <= s.height,
                    s.pitch >= 0,
            ;
            assert(0 <= GLYPH_H * s.pitch) by (nonlinear_arith);
            assert(fb.len() == fb@.len());
        }
        let line: usize = GLYPH_H * s.pitch;
        let total: usize = s.height * s.pitch;
        let mut i: usize = 0;
        while i < total - line
            invariant
                i <= total - line,
                0 <= line <= total <= f0.len(),
                fb@.len() == f0.len(),
                forall|k: int| 0 <= k < i ==> fb@[k] == f0[k + line],
                forall|k: int| i <= k < f0.len() ==> fb@[k] == f0[k],
            decreases total - line - i,
        {
            fb[i] = fb[i + line];
            i = i + 1;
        }
        assert(fb@ =~= s.moved_up(f0));
        self.fill_rect(fb, 0, s.height - GLYPH_H, s.width, GLYPH_H, background());
        self.row = if self.rows > 0 {
            self.rows - 1
        } else {
            0
        };
    }

    /// Draw one character. The font has sixteen rows for every byte.
    pub fn draw_char(&self, fb: &mut [u8], font: &[u8], x: usize, y: usize, ch: u8, c: Rgb)
        requires
            self.fits(old(fb)@.len()),
            font@.len() == 4096,
            x + GLYPH_W <= usize::MAX,
            y + GLYPH_H <= usize::MAX,
        ensures
            final(fb)@ == match self.surface {
                Some(s) => s.glyph_painted(old(fb)@, x as int, y as int, font@, ch, 16, c),
                None => old(fb)@,
            },
            final(fb)@.len() == old(fb)@.len(),
    {
        let ghost f0 = fb@;
        let mut dy: usize = 0;
        while dy < GLYPH_H
            invariant
                dy <= GLYPH_H,
                self.fits(f0.len()),
                fb@.len() == f0.len(),
                font@.len() == 4096,
                x + GLYPH_W <= usize::MAX,
                y + GLYPH_H <= usize::MAX,
                fb@ == match self.surface {
                    Some(s) => s.glyph_painted(
                        f0,
                        x as int,
                        y as int,
                        font@,
                        ch,
                        dy as int,
                        c,
                    ),
                    None => f0,
                },
            decreases GLYPH_H - dy,
        {
            let bits: u8 = font[16 * ch as usize + dy];
            let ghost f1 = fb@;
            let mut dx: usize = 0;
            while dx < GLYPH_W
                invariant
                    dx <= GLYPH_W,
                    dy < GLYPH_H,
                    self.fits(f0.len()),
                    fb@.len() == f0.len() == f1.len(),
                    x + GLYPH_W <= usize::MAX,
                    y + GLYPH_H <= usize::MAX,
                    fb@ == match self.surface {
                        Some(s) => s.bits_painted(f1, x as int, y + dy, bits, dx as int, c),
                        None => f1,
                    },
                decreases GLYPH_W - dx,
            {
                if bits & (0x80u8 >> dx as u8) != 0 {
                    self.put_pixel(fb, x + dx, y + dy, c);
                }
                dx = dx + 1;
            }
            dy = dy + 1;
        }
    }

    /// The console and the bytes after a line break.
    pub open spec fn broken(self, fb: Seq<u8>) -> (Console, Seq<u8>) {
        let c = Console { col: 0, row: (self.row + 1) as usize, ..self };
        match self.surface {
            Some(s) => if c.row >= c.rows {
                (c.after_scroll(s), s.scrolled(fb))
            } else {
                (c, fb)
            },
            None => (c, fb),
        }
    }

    fn newline(&mut self, fb: &mut [u8])
        requires
            old(self).fits(old(fb)@.len()),
            old(self).writable(),
            old(self).wf(),
            old(self).surface is Some,
        ensures
            (*final(self), final(fb)@) == old(self).broken(old(fb)@),
            final(self).wf(),
            final(self).surface == old(self).surface,
            final(fb)@.len() == old(fb)@.len(),
    {
        self.col = 0;
        self.row = self.row + 1;
        if self.row >= self.rows {
            self.scroll(fb);
        }
    }

    /// The console and the bytes after a printable character.
    pub open spec fn printed(self, fb: Seq<u8>, font: Seq<u8>, b: u8) -> (Console, Seq<u8>) {
        let (c, f) = if self.col >= self.cols {
            self.broken(fb)
        } else {
            (self, fb)
        };
        (
            Console { col: (c.col + 1) as usize, ..c },
            c.surface->Some_0.glyph_painted(f, 8 * c.col, 16 * c.row, font, b, 16, c.fg),
        )
    }

    /// The console and the bytes after any byte: a line break, a return to the
    /// start of the line, four spaces for a tab, or a character.
    pub open spec fn written(self, fb: Seq<u8>, font: Seq<u8>, b: u8) -> (Console, Seq<u8>) {
        if self.surface is None {
            (self, fb)
        } else if b == 0x0a {
            self.broken(fb)
        } else if b == 0x0d {
            (Console { col: 0, ..self }, fb)
        } else if b == 0x09 {
            let (c1, f1) = self.printed(fb, font, 0x20);
            let (c2, f2) = c1.printed(f1, font, 0x20);
            let (c3, f3) = c2.printed(f2, font, 0x20);
            c3.printed(f3, font, 0x20)
        } else {
            self.printed(fb, font, b)
        }
    }

    fn print(&mut self, fb: &mut [u8], font: &[u8], b: u8)
        requires
            old(self).fits(old(fb)@.len()),
            old(self).writable(),
            old(self).wf(),
            old(self).surface is Some,
            font@.len() == 4096,
        ensures
            (*final(self), final(fb)@) == old(self).printed(old(fb)@, font@, b),
            final(self).wf(),
            final(self).surface == old(self).surface,
            final(fb)@.len() == old(fb)@.len(),
    {
        if self.col >= self.cols {
            self.newline(fb);
        }
        let fg = self.fg;
        self.draw_char(fb, font, self.col * GLYPH_W, self.row * GLYPH_H, b, fg);
        self.col = self.col + 1;
    }

    pub fn write_byte(&mut self, fb: &mut [u8], font: &[u8], b: u8)
        requires
            old(self).fits(old(fb)@.len()),
            old(self).writable(),
            old(self).wf(),
            font@.len() == 4096,
        ensures
            (*final(self), final(fb)@) == old(self).written(old(fb)@, font@, b),
            final(self).wf(),
            final(self).surface == old(self).surface,
            final(fb)@.len() == old(fb)@.len(),
    {
        if self.surface.is_none() {
            return;
        }
        if b == 0x0a {
            self.newline(fb);
        } else if b == 0x0d {
            self.col = 0;
        } else if b == 0x09 {
            self.print(fb, font, 0x20);
            self.print(fb, font, 0x20);
            self.print(fb, font, 0x20);
            self.print(fb, font, 0x20);
        } else {
            self.print(fb, font, b);
        }
    }

    /// The console and the bytes after the first `n` of a string's bytes.
    pub open spec fn written_all(
        self,
        fb: Seq<u8>,
        font: Seq<u8>,
        s: Seq<u8>,
        n: int,
    ) -> (Console, Seq<u8>)
        decreases n,
    {
        if n <= 0 {
            (self, fb)
        } else {
            let (c, f) = self.written_all(fb, font, s, n - 1);
            c.written(f, font, s[n - 1])
        }
    }

    /// Write every byte of a string.
    pub fn write_bytes(&mut self, fb: &mut [u8], font: &[u8], s: &[u8])
        requires
            old(self).fits(old(fb)@.len()),
            old(self).writable(),
            old(self).wf(),
            font@.len() == 4096,
        ensures
            (*final(self), final(fb)@) == old(self).written_all(
                old(fb)@,
                font@,
                s@,
                s@.len() as int,
            ),
            final(self).wf(),
            final(fb)@.len() == old(fb)@.len(),
    {
        let ghost c0 = *self;
        let ghost f0 = fb@;
        let mut i: usize = 0;
        while i < s.len()
            invariant
                i <= s@.len(),
                self.surface == c0.surface,
                self.fits(fb@.len()),
                self.writable(),
                self.wf(),
                fb@.len() == f0.len(),
                font@.len() == 4096,
                (*self, fb@) == c0.written_all(f0, font@, s@, i as int),
            decreases s@.len() - i,
        {
            self.write_byte(fb, font, s[i]);
            i = i + 1;
        }
    }
}

/// What the banner leaves on the screen: three bars, the wordmark drawn twice,
/// and a rule, with the cursor below.
pub open spec fn bars_drawn(s: Surface, fb: Seq<u8>) -> Seq<u8> {
    let a = s.rect_painted(fb, 24, 6, 200, 2, accent());
    let b = s.rect_painted(a, 24, 10, 160, 2, accent());
    s.rect_painted(b, 24, 14, 120, 2, accent())
}

/// The first `n` letters of the wordmark, each drawn twice, one pixel apart.
pub open spec fn title_drawn(s: Surface, fb: Seq<u8>, font: Seq<u8>, title: Seq<u8>, n: int) -> Seq<
    u8,
>
    decreases n,
{
    if n <= 0 {
        fb
    } else {
        let f = title_drawn(s, fb, font, title, n - 1);
        let g = s.glyph_painted(f, 24 + 16 * (n - 1), 24, font, title[n - 1], 16, accent());
        s.glyph_painted(g, 24 + 16 * (n - 1) + 1, 24, font, title[n - 1], 16, accent())
    }
}

/// "bramble"
pub open spec fn title() -> Seq<u8> {
    seq![0x62, 0x72, 0x61, 0x6d, 0x62, 0x6c, 0x65]
}

/// Draw the wordmark and a rule across the top of the framebuffer.
pub fn draw_banner(c: &mut Console, fb: &mut [u8], font: &[u8])
    requires
        old(c).fits(old(fb)@.len()),
        old(c).writable(),
        old(c).wf(),
        font@.len() == 4096,
    ensures
        match old(c).surface {
            None => *final(c) == *old(c) && final(fb)@ == old(fb)@,
            Some(s) => {
                let f = s.rect_painted(
                    title_drawn(s, bars_drawn(s, old(fb)@), font@, title(), 7),
                    24,
                    46,
                    400,
                    1,
                    accent(),
                );
                (*final(c), final(fb)@) == old(c).written_all(
                    f,
                    font@,
                    seq![0x0a, 0x0a, 0x0a, 0x0a, 0x0a],
                    5,
                )
            },
        },
        final(c).wf(),
        final(fb)@.len() == old(fb)@.len(),
{
    if !c.is_attached() {
        return;
    }
    let ghost s = c.surface->Some_0;
    let ghost f0 = fb@;
    // Three stacked bars, evoking a bramble: dense, tangled, all one thing.
    c.fill_rect(fb, 24, 6, 200, 2, accent());
    c.fill_rect(fb, 24, 10, 160, 2, accent());
    c.fill_rect(fb, 24, 14, 120, 2, accent());
    let ghost f1 = fb@;
    let letters: [u8; 7] = [0x62, 0x72, 0x61, 0x6d, 0x62, 0x6c, 0x65];
    assert(letters@ =~= title());
    let mut i: usize = 0;
    while i < 7
        invariant
            i <= 7,
            *c == *old(c),
            c.surface == Some(s),
            c.fits(fb@.len()),
            fb@.len() == f0.len(),
            font@.len() == 4096,
            letters@ == title(),
            fb@ == title_drawn(s, f1, font@, title(), i as int),
        decreases 7 - i,
    {
        c.draw_char(fb, font, 24 + i * 16, 24, letters[i], accent());
        c.draw_char(fb, font, 24 + i * 16 + 1, 24, letters[i], accent());
        i = i + 1;
    }
    c.fill_rect(fb, 24, 46, 400, 1, accent());
    // Put the text cursor below the banner.
    let breaks: [u8; 5] = [0x0a, 0x0a, 0x0a, 0x0a, 0x0a];
    assert(breaks@ =~= seq![0x0a, 0x0a, 0x0a, 0x0a, 0x0a]);
    c.write_bytes(fb, font, breaks.as_slice());
}

} // verus!

//! The legacy interrupt controller and timer: what is written to which port.
//!
//! They are simpler than their successors, they need no memory-mapped
//! registers, and on one core they do the same job.

use vstd::prelude::*;

verus! {

pub const PIC1_CMD: u16 = 0x20;
pub const PIC1_DATA: u16 = 0x21;
pub const PIC2_CMD: u16 = 0xA0;
pub const PIC2_DATA: u16 = 0xA1;

/// Where the hardware interrupts are remapped to. The first 32 vectors belong
/// to the processor's own exceptions, so the defaults would collide with them.
pub const IRQ_BASE: u8 = 0x20;
pub const IRQ_TIMER: u8 = 0x20;

pub const PIT_CH0: u16 = 0x40;
pub const PIT_CMD: u16 = 0x43;
pub const PIT_HZ: u32 = 1_193_182;

/// The writes that remap both controllers above the exception vectors and mask
/// everything: four command words each, and the masks.
pub open spec fn pic_writes() -> Seq<(u16, u8)> {
    seq![
        (PIC1_CMD, 0x11u8),
        (PIC2_CMD, 0x11u8),
        (PIC1_DATA, IRQ_BASE),
        (PIC2_DATA, (IRQ_BASE + 8) as u8),
        (PIC1_DATA, 4u8),
        (PIC2_DATA, 2u8),
        (PIC1_DATA, 0x01u8),
        (PIC2_DATA, 0x01u8),
        (PIC1_DATA, 0xFFu8),
        (PIC2_DATA, 0xFFu8),
    ]
}

/// Remap both controllers above the exception vectors and mask everything.
pub fn init_pic() -> (r: Vec<(u16, u8)>)
    ensures
        r@ == pic_writes(),
{
    let mut w: Vec<(u16, u8)> = Vec::new();
    w.push((PIC1_CMD, 0x11));  // begin initialisation, expect 4 command words
    w.push((PIC2_CMD, 0x11));
    w.push((PIC1_DATA, IRQ_BASE));  // master vector offset
    w.push((PIC2_DATA, IRQ_BASE + 8));  // slave vector offset
    w.push((PIC1_DATA, 4));  // slave is on master's line 2
    w.push((PIC2_DATA, 2));  // slave identity
    w.push((PIC1_DATA, 0x01));  // 8086 mode
    w.push((PIC2_DATA, 0x01));
    w.push((PIC1_DATA, 0xFF));  // mask everything for now
    w.push((PIC2_DATA, 0xFF));
    assert(w@ =~= pic_writes());
    w
}

/// The mask with one line of the master unmasked.
pub fn unmask(mask: u8, irq: u8) -> (r: u8)
    requires
        irq < 8,
    ensures
        r == mask & !(1u8 << irq),
{
    mask & !(1u8 << irq)
}

/// The command ports that have to hear that an interrupt was handled. It must
/// happen before a context switch, or the next tick never arrives on the
/// thread that is switched to.
pub fn eoi(vector: u8) -> (r: Vec<u16>)
    ensures
        r@ == if vector >= IRQ_BASE + 8 {
            seq![PIC2_CMD, PIC1_CMD]
        } else {
            seq![PIC1_CMD]
        },
{
    let mut w: Vec<u16> = Vec::new();
    if vector >= IRQ_BASE + 8 {
        w.push(PIC2_CMD);
    }
    w.push(PIC1_CMD);
    assert(vector >= IRQ_BASE + 8 ==> w@ =~= seq![PIC2_CMD, PIC1_CMD]);
    assert(vector < IRQ_BASE + 8 ==> w@ =~= seq![PIC1_CMD]);
    w
}

/// The timer's divisor for a rate: as near as its sixteen bits allow.
pub open spec fn divisor(hz: u32) -> int {
    let d = PIT_HZ as int / hz as int;
    if d < 1 {
        1
    } else if d > 65535 {
        65535
    } else {
        d
    }
}

/// Programme channel 0 as a rate generator at roughly `hz`.
pub fn init_timer(hz: u32) -> (r: Vec<(u16, u8)>)
    requires
        hz > 0,
    ensures
        r@ == seq![
            (PIT_CMD, 0x34u8),
            (PIT_CH0, (divisor(hz) % 256) as u8),
            (PIT_CH0, (divisor(hz) / 256) as u8),
        ],
{
    let d: u32 = PIT_HZ / hz;
    let clamped: u32 = if d < 1 {
        1
    } else if d > 65535 {
        65535
    } else {
        d
    };
    let mut w: Vec<(u16, u8)> = Vec::new();
    w.push((PIT_CMD, 0x34));  // channel 0, lo/hi byte, mode 2
    w.push((PIT_CH0, (clamped % 256) as u8));
    w.push((PIT_CH0, (clamped / 256) as u8));
    assert(w@ =~= seq![
        (PIT_CMD, 0x34u8),
        (PIT_CH0, (divisor(hz) % 256) as u8),
        (PIT_CH0, (divisor(hz) / 256) as u8),
    ]);
    w
}

/// Count one tick. The counter goes round rather than stop the machine.
pub fn tick(count: &mut u64)
    ensures
        *final(count) == if *old(count) == u64::MAX {
            0
        } else {
            *old(count) + 1
        },
{
    *count = count.wrapping_add(1);
}

pub fn ticks(count: &u64) -> (r: u64)
    ensures
        r == *count,
{
    *count
}

} // verus!

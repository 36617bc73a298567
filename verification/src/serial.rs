//! The serial port: the kernel's primary output channel. What is written to
//! which register, and when.

use vstd::prelude::*;

verus! {

pub const COM1: u16 = 0x3F8;

/// How long a send waits for the port. A missing port must not hang the kernel.
pub const MAX_SPINS: u32 = 100_000;

#[derive(Clone, Copy, Debug, PartialEq, Eq, Structural)]
pub struct SerialPort {
    pub base: u16,
    pub ready: bool,
}

/// The writes that set a port to 115200 baud, eight bits, no parity, one stop
/// bit, with its buffers on.
pub open spec fn setup_writes(base: u16) -> Seq<(u16, u8)> {
    seq![
        ((base + 1) as u16, 0x00u8),
        ((base + 3) as u16, 0x80u8),
        (base, 0x01u8),
        ((base + 1) as u16, 0x00u8),
        ((base + 3) as u16, 0x03u8),
        ((base + 2) as u16, 0xC7u8),
        ((base + 4) as u16, 0x0Bu8),
    ]
}

/// What to do next with a byte that is to go out.
#[derive(Clone, Copy, Debug, PartialEq, Eq, Structural)]
pub enum SendStep {
    /// The port was never set up; the byte is dropped.
    Drop,
    /// Ask the port for its status again.
    Wait,
    /// Write the byte.
    Send,
}

impl SerialPort {
    /// The ports of this device are ports.
    pub open spec fn fits(self) -> bool {
        self.base <= 0xFFFA
    }

    pub fn new(base: u16) -> (r: SerialPort)
        ensures
            r == (SerialPort { base, ready: false }),
    {
        SerialPort { base, ready: false }
    }

    /// Configure for 115200 8N1 with FIFOs on.
    pub fn init(&mut self) -> (r: Vec<(u16, u8)>)
        requires
            old(self).fits(),
        ensures
            r@ == setup_writes(old(self).base),
            *final(self) == (SerialPort { ready: true, ..*old(self) }),
    {
        let b: u16 = self.base;
        let mut w: Vec<(u16, u8)> = Vec::new();
        w.push((b + 1, 0x00));  // interrupts off
        w.push((b + 3, 0x80));  // divisor latch on
        w.push((b, 0x01));  // divisor 1: 115200
        w.push((b + 1, 0x00));
        w.push((b + 3, 0x03));  // 8N1, divisor latch off
        w.push((b + 2, 0xC7));  // buffers on, clear, 14-byte threshold
        w.push((b + 4, 0x0B));  // request to send, data set ready
        self.ready = true;
        assert(w@ =~= setup_writes(b));
        w
    }

    /// Where the status is read.
    pub fn status_port(&self) -> (r: u16)
        requires
            self.fits(),
        ensures
            r == self.base + 5,
    {
        self.base + 5
    }

    /// The status says the port can take a byte.
    pub fn can_send(status: u8) -> (r: bool)
        ensures
            r == (status & 0x20 != 0),
    {
        status & 0x20 != 0
    }

    /// What to do with a byte, given the port's status and how often it was
    /// asked already. A port that never gets ready is written to all the same.
    pub fn write_byte(&self, status: u8, spins: u32) -> (r: SendStep)
        ensures
            r == if !self.ready {
                SendStep::Drop
            } else if status & 0x20 == 0 && spins < MAX_SPINS {
                SendStep::Wait
            } else {
                SendStep::Send
            },
    {
        if !self.ready {
            SendStep::Drop
        } else if !SerialPort::can_send(status) && spins < MAX_SPINS {
            SendStep::Wait
        } else {
            SendStep::Send
        }
    }

    /// Is there a byte to read?
    pub fn read_byte(&self, status: u8) -> (r: bool)
        ensures
            r == (self.ready && status & 1 != 0),
    {
        self.ready && status & 1 != 0
    }
}

/// The bytes of a string as a terminal wants them: every line feed after a
/// carriage return.
pub open spec fn terminal_bytes(s: Seq<u8>) -> Seq<u8>
    decreases s.len(),
{
    if s.len() == 0 {
        Seq::empty()
    } else {
        let b = terminal_bytes(s.drop_last());
        if s.last() == 0x0a {
            b.push(0x0d).push(0x0a)
        } else {
            b.push(s.last())
        }
    }
}

/// The bytes that go out for a string.
pub fn write_str(s: &[u8]) -> (r: Vec<u8>)
    ensures
        r@ == terminal_bytes(s@),
{
    let mut out: Vec<u8> = Vec::new();
    let mut i: usize = 0;
    assert(s@.take(0) =~= Seq::<u8>::empty());
    while i < s.len()
        invariant
            i <= s@.len(),
            out@ == terminal_bytes(s@.take(i as int)),
        decreases s@.len() - i,
    {
        proof {
            assert(s@.take(i + 1).drop_last() =~= s@.take(i as int));
            assert(s@.take(i + 1).last() == s@[i as int]);
        }
        if s[i] == 0x0a {
            out.push(0x0d);
        }
        out.push(s[i]);
        i = i + 1;
    }
    assert(s@.take(s@.len() as int) =~= s@);
    out
}

} // verus!

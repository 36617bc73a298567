//! What a rendezvous costs: cycles spent inside the graph operations, and how
//! many rendezvous that covers.

use vstd::prelude::*;

verus! {

/// The sum as a register keeps it.
pub open spec fn around(a: u64, b: u64) -> u64 {
    ((a + b) % 0x1_0000_0000_0000_0000) as u64
}

fn sum(a: u64, b: u64) -> (r: u64)
    ensures
        r == around(a, b),
{
    a.wrapping_add(b)
}

/// Four readings of the cycle counter around one handoff.
#[derive(Clone, Copy, Debug, PartialEq, Eq, Structural)]
pub struct Readings {
    pub start: u64,
    pub found: u64,
    pub delivered: u64,
    pub end: u64,
}

impl Readings {
    pub open spec fn ordered(self) -> bool {
        self.start <= self.found <= self.delivered <= self.end
    }
}

/// The readings are themselves part of the measurement, so this is an upper
/// bound on the graph's share rather than a precise figure. That is the right
/// direction to be wrong in.
#[derive(Clone, Copy, Debug, PartialEq, Eq, Structural)]
pub struct Timings {
    pub handoff_cycles: u64,
    pub handoffs: u64,
    /// Sub-timings, so the cost can be attributed rather than guessed at.
    pub find_cycles: u64,
    pub deliver_cycles: u64,
    pub wake_cycles: u64,
    /// When the conversation started and when it last did anything.
    pub first_ts: u64,
    pub last_ts: u64,
}

impl Timings {
    pub open spec fn spec_zero() -> Timings {
        Timings {
            handoff_cycles: 0,
            handoffs: 0,
            find_cycles: 0,
            deliver_cycles: 0,
            wake_cycles: 0,
            first_ts: 0,
            last_ts: 0,
        }
    }

    pub fn new() -> (r: Timings)
        ensures
            r == Timings::spec_zero(),
    {
        Timings {
            handoff_cycles: 0,
            handoffs: 0,
            find_cycles: 0,
            deliver_cycles: 0,
            wake_cycles: 0,
            first_ts: 0,
            last_ts: 0,
        }
    }

    /// Count one handoff.
    pub fn record(&mut self, t: Readings)
        requires
            t.ordered(),
        ensures
            *final(self) == (Timings {
                handoff_cycles: around(old(self).handoff_cycles, (t.end - t.start) as u64),
                handoffs: around(old(self).handoffs, 1),
                find_cycles: around(old(self).find_cycles, (t.found - t.start) as u64),
                deliver_cycles: around(
                    old(self).deliver_cycles,
                    (t.delivered - t.found) as u64,
                ),
                wake_cycles: around(old(self).wake_cycles, (t.end - t.delivered) as u64),
                first_ts: if old(self).first_ts == 0 {
                    t.start
                } else {
                    old(self).first_ts
                },
                last_ts: t.end,
            }),
    {
        self.find_cycles = sum(self.find_cycles, t.found - t.start);
        self.deliver_cycles = sum(self.deliver_cycles, t.delivered - t.found);
        self.wake_cycles = sum(self.wake_cycles, t.end - t.delivered);
        self.handoff_cycles = sum(self.handoff_cycles, t.end - t.start);
        self.handoffs = sum(self.handoffs, 1);
        if self.first_ts == 0 {
            self.first_ts = t.start;
        }
        self.last_ts = t.end;
    }

    /// How long the conversation went on.
    pub fn elapsed(&self) -> (r: u64)
        ensures
            r == if self.last_ts >= self.first_ts {
                self.last_ts - self.first_ts
            } else {
                0
            },
    {
        self.last_ts.saturating_sub(self.first_ts)
    }

    pub fn handoff_breakdown(&self) -> (r: (u64, u64, u64))
        ensures
            r == (self.find_cycles, self.deliver_cycles, self.wake_cycles),
    {
        (self.find_cycles, self.deliver_cycles, self.wake_cycles)
    }

    pub fn handoff_stats(&self) -> (r: (u64, u64))
        ensures
            r == (self.handoff_cycles, self.handoffs),
    {
        (self.handoff_cycles, self.handoffs)
    }

    pub fn reset_handoff_stats(&mut self)
        ensures
            *final(self) == Timings::spec_zero(),
    {
        *self = Timings::new();
    }
}

/// The sum of the gaps between pairs of readings, as a register keeps it.
pub open spec fn gaps(s: Seq<(u64, u64)>) -> u64
    decreases s.len(),
{
    if s.len() == 0 {
        0
    } else {
        around(
            gaps(s.drop_last()),
            ((s.last().1 - s.last().0) % 0x1_0000_0000_0000_0000) as u64,
        )
    }
}

/// What a pair of back-to-back timing reads costs on this machine: the mean of
/// the gaps between the pairs. Without subtracting this the graph's share would
/// be mostly a measurement of the measurement.
pub fn timing_overhead(pairs: &Vec<(u64, u64)>) -> (r: u64)
    requires
        pairs@.len() > 0,
    ensures
        r == gaps(pairs@) as int / pairs@.len() as int,
{
    let mut total: u64 = 0;
    let mut i: usize = 0;
    assert(pairs@.take(0) =~= Seq::<(u64, u64)>::empty());
    while i < pairs.len()
        invariant
            i <= pairs@.len(),
            total == gaps(pairs@.take(i as int)),
        decreases pairs@.len() - i,
    {
        let (a, b): (u64, u64) = pairs[i];
        proof {
            assert(pairs@.take(i + 1).drop_last() =~= pairs@.take(i as int));
            assert(pairs@.take(i + 1).last() == (a, b));
        }
        total = sum(total, b.wrapping_sub(a));
        i = i + 1;
    }
    assert(pairs@.take(pairs@.len() as int) =~= pairs@);
    total / pairs.len() as u64
}

} // verus!

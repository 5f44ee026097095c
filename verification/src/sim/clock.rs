//! Ticks, the time of day and the days.

use vstd::prelude::*;

verus! {

/// Ticks of a second.
pub const TICK_RATE: u32 = 60;

/// Ticks between two snapshots of movement.
pub const SNAPSHOT_INTERVAL_TICKS: u32 = 3;

/// Ticks of a day: a tick is a second of the game.
pub const DAY_TICKS: u32 = 86_400;

#[derive(Debug, Clone, Copy, PartialEq, Eq, Structural)]
pub struct Clock {
    /// Ticks since the start.
    pub tick: u64,
    /// Ticks since midnight.
    pub time: u32,
    /// Days that have passed.
    pub day: u32,
}

impl Clock {
    pub open spec fn wf(self) -> bool {
        self.time < DAY_TICKS
    }

    /// Ticks since midnight of the first day.
    pub open spec fn age(self) -> int {
        self.day * DAY_TICKS + self.time
    }

    pub open spec fn spec_advance(self) -> Clock {
        if self.time + 1 >= DAY_TICKS {
            Clock { tick: (self.tick + 1) as u64, time: 0, day: (self.day + 1) as u32 }
        } else {
            Clock { tick: (self.tick + 1) as u64, time: (self.time + 1) as u32, ..self }
        }
    }

    /// One tick passes.
    pub fn advance(&mut self)
        requires
            old(self).wf(),
            old(self).tick < u64::MAX,
            old(self).day < u32::MAX,
        ensures
            *final(self) == old(self).spec_advance(),
            final(self).wf(),
            final(self).age() == old(self).age() + 1,
    {
        self.tick = self.tick + 1;
        self.time = self.time + 1;
        if self.time >= DAY_TICKS {
            self.time = 0;
            self.day = self.day + 1;
        }
    }

    /// Whether something that happens every `interval` ticks happens now.
    pub fn due(&self, interval: u32) -> (b: bool)
        requires
            interval > 0,
        ensures
            b == (self.tick % (interval as u64) == 0),
    {
        self.tick % (interval as u64) == 0
    }
}

/// A tick is the sixtieth part of a second; a day has 86400 ticks and is
/// followed by the next, which starts at its beginning.
pub proof fn law_days_follow_days(c: Clock)
    requires
        c.time < 86_400,
        c.tick < u64::MAX,
        c.day < u32::MAX,
    ensures
        c.spec_advance().tick == c.tick + 1,
        c.time < 86_399 ==> c.spec_advance().time == c.time + 1 && c.spec_advance().day == c.day,
        c.time == 86_399 ==> c.spec_advance().time == 0 && c.spec_advance().day == c.day + 1,
        TICK_RATE == 60 && SNAPSHOT_INTERVAL_TICKS == 3,
{
}

} // verus!

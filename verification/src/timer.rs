//! The bookkeeping of the clicker's frame timer: the frame counter, the
//! frames that carry a rhythm accent, and the slot of the ring of recent
//! intervals that a frame overwrites. (The intervals themselves are
//! floating-point and computed by the caller.)
use vstd::prelude::*;

verus! {

/// How many recent intervals the timer remembers.
pub const RECENT_INTERVALS: usize = 8;

/// The frame counter of the timer.
pub struct FrameClock {
    pub tick: u64,
}

/// The length of the rhythm groups at frame `tick`: 3, 4 or 5, changing
/// every fifty frames.
pub open spec fn group_size_of(tick: u64) -> u64 {
    (3 + (tick / 50) % 3) as u64
}

/// Frame `tick` carries a rhythm accent: it is a multiple of the group
/// length.
pub open spec fn rhythm_beat_of(tick: u64) -> bool {
    tick % group_size_of(tick) == 0
}

impl FrameClock {
    /// A timer before its first frame.
    pub fn new() -> (r: Self)
        ensures
            r.tick == 0,
    {
        FrameClock { tick: 0 }
    }

    /// Moves to the next frame and returns its number.
    pub fn advance(&mut self) -> (t: u64)
        requires
            old(self).tick < u64::MAX,
        ensures
            final(self).tick == old(self).tick + 1,
            t == final(self).tick,
    {
        self.tick = self.tick + 1;
        self.tick
    }
}

/// The length of the rhythm groups at a frame.
pub fn group_size(tick: u64) -> (r: u64)
    ensures
        r == group_size_of(tick),
        3 <= r <= 5,
{
    3 + (tick / 50) % 3
}

/// Whether a frame carries a rhythm accent.
pub fn rhythm_beat(tick: u64) -> (r: bool)
    ensures
        r == rhythm_beat_of(tick),
{
    tick % group_size(tick) == 0
}

/// The slot of the ring of recent intervals that a frame overwrites.
pub fn ring_slot(tick: u64) -> (r: usize)
    ensures
        r == tick % 8,
        r < RECENT_INTERVALS,
{
    (tick % 8) as usize
}

} // verus!

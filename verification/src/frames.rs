//! When the next frame of an animation is due.
//!
//! The time is an absolute one: a wait that is begun anew on every pass of a busy
//! loop would never be over.
use vstd::prelude::*;

verus! {

/// Milliseconds from one frame of the spinner to the next.
pub const SPINNER_FRAME_MS: u64 = 120;

/// An animation in progress.
#[derive(Debug, Clone, Copy, PartialEq, Eq, Structural)]
pub struct FrameClock {
    /// The frame that was drawn last.
    pub tick: u32,
    /// When the next one is due.
    pub due_ms: u64,
}

impl FrameClock {
    /// Whether the next frame is due at a time.
    pub open spec fn due_at(self, now_ms: int) -> bool {
        now_ms >= self.due_ms
    }

    /// An animation at frame `tick`, whose next frame is due at once.
    pub fn new(tick: u32, now_ms: u64) -> (c: FrameClock)
        ensures
            c == (FrameClock { tick, due_ms: now_ms }),
    {
        FrameClock { tick, due_ms: now_ms }
    }

    /// Whether the next frame is due.
    pub fn is_due(&self, now_ms: u64) -> (r: bool)
        ensures
            r == self.due_at(now_ms as int),
    {
        now_ms >= self.due_ms
    }

    /// The next frame is drawn now, and the one behind it is due `every_ms` later.
    /// Frames are counted without end.
    pub fn advance(&mut self, now_ms: u64, every_ms: u64)
        requires
            now_ms + every_ms <= u64::MAX,
        ensures
            final(self).due_ms == now_ms + every_ms,
            final(self).tick == (if old(self).tick == u32::MAX {
                0
            } else {
                old(self).tick + 1
            }),
    {
        self.due_ms = now_ms + every_ms;
        self.tick = self.tick.wrapping_add(1);
    }
}

} // verus!

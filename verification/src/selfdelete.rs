//! The atomic-save round-trip guard: whether a `Deleted` event for a tab's own
//! file was caused by the tab's own save.

use vstd::prelude::*;

verus! {

/// Why a `Deleted` event was suppressed. The two arms differ: `OwnArmedWrite`
/// consumes a flag this application set, so the event is certainly ours;
/// `WriteInFlight` is the fallback for a platform's surplus event, and the one
/// case where a genuinely external deletion can be suppressed.
#[derive(Debug, Clone, Copy, PartialEq, Eq, Structural)]
pub enum SwallowReason {
    /// A flag this application armed before its own write.
    OwnArmedWrite,
    /// A write was in progress; the event is presumed to be its surplus.
    WriteInFlight,
}

/// The arm/consume/clear protocol of the guard. Its methods are the only way
/// to touch the flag.
pub struct SelfDeleteGuard {
    armed: bool,
}

impl SelfDeleteGuard {
    /// Whether the guard is armed.
    pub closed spec fn is_armed(&self) -> bool {
        self.armed
    }

    /// A disarmed guard.
    pub fn new() -> (g: SelfDeleteGuard)
        ensures
            !g.is_armed(),
    {
        SelfDeleteGuard { armed: false }
    }

    /// Arm the guard immediately before the tab's own atomic rename.
    pub fn arm(&mut self)
        ensures
            final(self).is_armed(),
    {
        self.armed = true;
    }

    /// Disarm without treating it as a consumed self-delete: the write never
    /// happened, or no separate `Deleted` is coming.
    pub fn disarm(&mut self)
        ensures
            !final(self).is_armed(),
    {
        self.armed = false;
    }

    /// Consume the guard: `true` means the `Deleted` just observed was our own
    /// rename. Always leaves the guard disarmed, so one arm swallows one event.
    pub fn consume(&mut self) -> (r: bool)
        ensures
            r == old(self).is_armed(),
            !final(self).is_armed(),
    {
        let was = self.armed;
        self.armed = false;
        was
    }

    /// Does this `Deleted` event belong to our own save? The armed flag is
    /// consumed first; only when it was not armed does a write in flight explain
    /// the event. The guard is disarmed afterwards either way.
    pub fn swallows(&mut self, write_in_flight: bool) -> (r: Option<SwallowReason>)
        ensures
            !final(self).is_armed(),
            r == (if old(self).is_armed() {
                Some(SwallowReason::OwnArmedWrite)
            } else if write_in_flight {
                Some(SwallowReason::WriteInFlight)
            } else {
                None
            }),
    {
        if self.consume() {
            return Some(SwallowReason::OwnArmedWrite);
        }
        if write_in_flight {
            return Some(SwallowReason::WriteInFlight);
        }
        None
    }
}

impl Default for SelfDeleteGuard {
    fn default() -> (g: SelfDeleteGuard)
        ensures
            !g.is_armed(),
    {
        SelfDeleteGuard::new()
    }
}

} // verus!

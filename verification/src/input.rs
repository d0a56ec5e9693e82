//! Input signal source: a debounced, edge-triggered button that posts a
//! start/stop toggle into a single-slot channel consumed by the playback
//! controller.

use vstd::prelude::*;

verus! {

/// Default re-arm interval after an accepted edge, in milliseconds.
pub const DEBOUNCE_MS: u64 = 400;

/// Debounced edge detection: an edge is accepted only when at least the
/// debounce interval has passed since the last accepted edge.
#[derive(Clone, Copy, Debug, PartialEq, Eq, Structural)]
pub struct Debouncer {
    pub debounce_ms: u64,
    pub last_accepted: Option<u64>,
}

impl Debouncer {
    /// Whether an edge at this instant would be accepted.
    pub open spec fn accepts(self, now_ms: u64) -> bool {
        match self.last_accepted {
            None => true,
            Some(t) => now_ms >= t && now_ms - t >= self.debounce_ms,
        }
    }

    /// A detector that will accept its first edge.
    pub fn new(debounce_ms: u64) -> (d: Debouncer)
        ensures
            d.debounce_ms == debounce_ms,
            d.last_accepted is None,
    {
        Debouncer { debounce_ms, last_accepted: None }
    }

    /// Reports a falling edge observed at `now_ms`. Returns whether the
    /// edge is accepted; an accepted edge re-arms the debounce window.
    pub fn on_falling_edge(&mut self, now_ms: u64) -> (accepted: bool)
        ensures
            accepted == old(self).accepts(now_ms),
            final(self).debounce_ms == old(self).debounce_ms,
            accepted ==> final(self).last_accepted == Some(now_ms),
            !accepted ==> final(self).last_accepted == old(self).last_accepted,
    {
        let accepted = match self.last_accepted {
            None => true,
            Some(t) => now_ms >= t && now_ms - t >= self.debounce_ms,
        };
        if accepted {
            self.last_accepted = Some(now_ms);
        }
        accepted
    }
}

/// The single-slot start/stop channel: it holds at most one unconsumed
/// toggle, so rapid sends coalesce into one pending message.
#[derive(Clone, Copy, Debug, PartialEq, Eq, Structural)]
pub struct SignalSlot {
    pub pending: bool,
}

impl SignalSlot {
    /// An empty slot.
    pub fn new() -> (s: SignalSlot)
        ensures
            !s.pending,
    {
        SignalSlot { pending: false }
    }

    /// Posts a toggle unless one is already pending; a pending message is
    /// never overwritten or duplicated.
    pub fn try_send(&mut self) -> (sent: bool)
        ensures
            sent == !old(self).pending,
            final(self).pending,
    {
        let sent = !self.pending;
        self.pending = true;
        sent
    }

    /// Takes the pending toggle, if any.
    pub fn try_receive(&mut self) -> (got: bool)
        ensures
            got == old(self).pending,
            !final(self).pending,
    {
        let got = self.pending;
        self.pending = false;
        got
    }
}

/// One falling edge of the button line: if the debouncer accepts the edge
/// and no toggle is pending, a toggle is posted. Returns whether a toggle
/// was posted.
pub fn handle_edge(detector: &mut Debouncer, slot: &mut SignalSlot, now_ms: u64) -> (sent: bool)
    ensures
        sent == (old(detector).accepts(now_ms) && !old(slot).pending),
        final(slot).pending == (old(slot).pending || old(detector).accepts(now_ms)),
        final(detector).debounce_ms == old(detector).debounce_ms,
        old(detector).accepts(now_ms) ==> final(detector).last_accepted == Some(now_ms),
        !old(detector).accepts(now_ms) ==> final(detector).last_accepted == old(
            detector,
        ).last_accepted,
{
    if detector.on_falling_edge(now_ms) {
        slot.try_send()
    } else {
        false
    }
}

} // verus!

//! Timestamped LED snapshots, the form in which fetched telemetry is kept
//! before it is mapped onto the physical strip: each snapshot records,
//! for one instant, explicit 8-bit colors for the LEDs that are lit.

use vstd::prelude::*;

verus! {

/// The lit LEDs at one instant: pairs of LED number and 8-bit color.
#[derive(Clone, Debug, PartialEq, Eq)]
pub struct UpdateFrame {
    pub timestamp: u64,
    pub led_states: Vec<(u32, (u8, u8, u8))>,
}

impl UpdateFrame {
    /// An empty snapshot at the given instant.
    pub fn new(timestamp: u64) -> (f: UpdateFrame)
        ensures
            f.timestamp == timestamp,
            f.led_states@ == Seq::<(u32, (u8, u8, u8))>::empty(),
    {
        UpdateFrame { timestamp, led_states: Vec::new() }
    }

    /// Records one lit LED.
    pub fn set_led_state(&mut self, led_number: u32, color: (u8, u8, u8))
        ensures
            final(self).timestamp == old(self).timestamp,
            final(self).led_states@ == old(self).led_states@.push((led_number, color)),
    {
        self.led_states.push((led_number, color));
    }
}

} // verus!

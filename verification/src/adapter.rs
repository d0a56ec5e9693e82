//! Update source adapter: turns a telemetry frame of (driver, LED
//! position) pairs into the dense LED updates the strip driver takes,
//! looking every driver up in the color registry. Drivers without a
//! registry entry are silently dropped.

use vstd::prelude::*;
use crate::color::{DriverRegistry, RGBColor, lookup_spec};
use crate::data_frame::{DriverData, UpdateFrame};
use crate::strip::LedUpdate;

verus! {

/// The LED update produced for one occupied slot and its registered color.
pub open spec fn update_for(d: DriverData, c: RGBColor) -> LedUpdate {
    LedUpdate { led_index: d.led_num as usize, r: c.r, g: c.g, b: c.b }
}

/// The updates resolution emits: one per occupied slot whose driver is
/// registered, in slot order.
pub open spec fn resolve_spec(
    slots: Seq<Option<DriverData>>,
    entries: Seq<(u32, RGBColor)>,
) -> Seq<LedUpdate>
    decreases slots.len(),
{
    if slots.len() == 0 {
        Seq::<LedUpdate>::empty()
    } else {
        let rest = resolve_spec(slots.drop_last(), entries);
        match slots.last() {
            None => rest,
            Some(d) => match lookup_spec(entries, d.driver_number) {
                None => rest,
                Some(c) => rest.push(update_for(d, c)),
            },
        }
    }
}

/// Resolves a frame against a registry. Deterministic and free of side
/// effects; the output never exceeds the number of frame slots.
pub fn resolve(frame: &UpdateFrame, registry: &DriverRegistry) -> (out: Vec<LedUpdate>)
    ensures
        out@ == resolve_spec(frame.drivers@, registry.entries@),
        out@.len() <= frame.drivers@.len(),
{
    let mut out: Vec<LedUpdate> = Vec::new();
    proof {
        assert(frame.drivers@.take(0) =~= Seq::<Option<DriverData>>::empty());
    }
    let mut i: usize = 0;
    while i < 20
        invariant
            i <= 20,
            frame.drivers@.len() == 20,
            out@ == resolve_spec(frame.drivers@.take(i as int), registry.entries@),
            out@.len() <= i,
        decreases 20 - i,
    {
        match frame.drivers[i] {
            None => {},
            Some(d) => {
                match registry.lookup(d.driver_number) {
                    None => {},
                    Some(c) => {
                        out.push(LedUpdate::new(d.led_num as usize, c.r, c.g, c.b));
                    },
                }
            },
        }
        proof {
            let t1 = frame.drivers@.take(i + 1 as int);
            assert(t1.drop_last() =~= frame.drivers@.take(i as int));
            assert(t1.last() == frame.drivers@[i as int]);
        }
        i += 1;
    }
    proof {
        assert(frame.drivers@.take(20) =~= frame.drivers@);
    }
    out
}

/// The update u is what slot k of the frame resolves to: the slot is
/// occupied, its driver is registered, and u carries that driver's LED
/// position and registered color.
pub open spec fn comes_from_slot(
    slots: Seq<Option<DriverData>>,
    entries: Seq<(u32, RGBColor)>,
    k: int,
    u: LedUpdate,
) -> bool {
    &&& 0 <= k < slots.len()
    &&& slots[k] is Some
    &&& lookup_spec(entries, slots[k].unwrap().driver_number) is Some
    &&& u == update_for(slots[k].unwrap(), lookup_spec(entries, slots[k].unwrap().driver_number).unwrap())
}

/// Law: resolution never emits more updates than the frame has slots.
pub proof fn lemma_resolve_len(slots: Seq<Option<DriverData>>, entries: Seq<(u32, RGBColor)>)
    ensures
        resolve_spec(slots, entries).len() <= slots.len(),
    decreases slots.len(),
{
    if slots.len() > 0 {
        lemma_resolve_len(slots.drop_last(), entries);
    }
}

/// Law: every emitted update comes from a slot whose driver is present in
/// the registry — no update is ever emitted for an unregistered driver
/// number.
pub proof fn lemma_resolve_only_registered(
    slots: Seq<Option<DriverData>>,
    entries: Seq<(u32, RGBColor)>,
    j: int,
)
    requires
        0 <= j < resolve_spec(slots, entries).len(),
    ensures
        exists|k: int| comes_from_slot(slots, entries, k, resolve_spec(slots, entries)[j]),
    decreases slots.len(),
{
    let rest = resolve_spec(slots.drop_last(), entries);
    let whole = resolve_spec(slots, entries);
    if j < rest.len() {
        lemma_resolve_only_registered(slots.drop_last(), entries, j);
        let k = choose|k: int| comes_from_slot(slots.drop_last(), entries, k, rest[j]);
        assert(slots[k] == slots.drop_last()[k]);
        assert(whole[j] == rest[j]);
        assert(comes_from_slot(slots, entries, k, whole[j]));
    } else {
        let k = slots.len() - 1;
        assert(comes_from_slot(slots, entries, k, whole[j]));
    }
}

} // verus!

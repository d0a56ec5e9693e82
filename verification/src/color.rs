//! Driver colors: the fixed 8-bit RGB color assigned to each Formula 1
//! driver number, and the registry the update resolver queries.

use vstd::prelude::*;

verus! {

/// An 8-bit-per-channel color. Used both as a driver's fixed identity
/// color and as a pending LED value.
#[derive(Clone, Copy, Debug, PartialEq, Eq, Structural)]
pub struct RGBColor {
    pub r: u8,
    pub g: u8,
    pub b: u8,
}

impl RGBColor {
    pub fn new(r: u8, g: u8, b: u8) -> (c: RGBColor)
        ensures
            c == (RGBColor { r, g, b }),
    {
        RGBColor { r, g, b }
    }
}

/// The color registered for a driver number: the first entry with that
/// number, if any.
pub open spec fn lookup_spec(entries: Seq<(u32, RGBColor)>, driver_number: u32) -> Option<
    RGBColor,
>
    decreases entries.len(),
{
    if entries.len() == 0 {
        None
    } else if entries[0].0 == driver_number {
        Some(entries[0].1)
    } else {
        lookup_spec(entries.drop_first(), driver_number)
    }
}

/// A read-only mapping from driver number to that driver's fixed color.
/// Built once at startup and then only queried; when a number is
/// registered twice, the earlier entry wins.
#[derive(Clone, Debug)]
pub struct DriverRegistry {
    pub entries: Vec<(u32, RGBColor)>,
}

impl DriverRegistry {
    /// An empty registry.
    pub fn new() -> (reg: DriverRegistry)
        ensures
            reg.entries@ == Seq::<(u32, RGBColor)>::empty(),
    {
        DriverRegistry { entries: Vec::new() }
    }

    /// Appends one driver's color. An already registered number keeps its
    /// earlier color, since lookup takes the first match.
    pub fn register(&mut self, driver_number: u32, color: RGBColor)
        ensures
            final(self).entries@ == old(self).entries@.push((driver_number, color)),
    {
        self.entries.push((driver_number, color));
    }

    /// Finds the color registered for a driver number.
    pub fn lookup(&self, driver_number: u32) -> (r: Option<RGBColor>)
        ensures
            r == lookup_spec(self.entries@, driver_number),
    {
        let n = self.entries.len();
        let mut i: usize = 0;
        proof {
            assert(self.entries@.skip(0) =~= self.entries@);
        }
        while i < n
            invariant
                i <= n,
                n == self.entries@.len(),
                lookup_spec(self.entries@.skip(i as int), driver_number) == lookup_spec(
                    self.entries@,
                    driver_number,
                ),
            decreases n - i,
        {
            let entry = self.entries[i];
            if entry.0 == driver_number {
                return Some(entry.1);
            }
            proof {
                assert(self.entries@.skip(i as int).drop_first() =~= self.entries@.skip(i + 1));
            }
            i += 1;
        }
        None
    }
}

/// The colors of the twenty drivers of the season the circuit was built
/// for, keyed by their racing numbers.
pub open spec fn standard_entries() -> Seq<(u32, RGBColor)> {
    seq![
        (1u32, RGBColor { r: 30, g: 65, b: 255 }),
        (2u32, RGBColor { r: 0, g: 82, b: 255 }),
        (4u32, RGBColor { r: 255, g: 135, b: 0 }),
        (10u32, RGBColor { r: 2, g: 144, b: 240 }),
        (11u32, RGBColor { r: 30, g: 65, b: 255 }),
        (14u32, RGBColor { r: 0, g: 110, b: 120 }),
        (16u32, RGBColor { r: 220, g: 0, b: 0 }),
        (18u32, RGBColor { r: 0, g: 110, b: 120 }),
        (20u32, RGBColor { r: 160, g: 207, b: 205 }),
        (22u32, RGBColor { r: 60, g: 130, b: 200 }),
        (23u32, RGBColor { r: 0, g: 82, b: 255 }),
        (24u32, RGBColor { r: 165, g: 160, b: 155 }),
        (27u32, RGBColor { r: 160, g: 207, b: 205 }),
        (31u32, RGBColor { r: 2, g: 144, b: 240 }),
        (40u32, RGBColor { r: 60, g: 130, b: 200 }),
        (44u32, RGBColor { r: 0, g: 210, b: 190 }),
        (55u32, RGBColor { r: 220, g: 0, b: 0 }),
        (63u32, RGBColor { r: 0, g: 210, b: 190 }),
        (77u32, RGBColor { r: 165, g: 160, b: 155 }),
        (81u32, RGBColor { r: 255, g: 135, b: 0 }),
    ]
}

/// Builds the registry of the twenty standard drivers.
pub fn standard_registry() -> (reg: DriverRegistry)
    ensures
        reg.entries@ == standard_entries(),
{
    let mut reg = DriverRegistry::new();
    reg.register(1, RGBColor::new(30, 65, 255));
    reg.register(2, RGBColor::new(0, 82, 255));
    reg.register(4, RGBColor::new(255, 135, 0));
    reg.register(10, RGBColor::new(2, 144, 240));
    reg.register(11, RGBColor::new(30, 65, 255));
    reg.register(14, RGBColor::new(0, 110, 120));
    reg.register(16, RGBColor::new(220, 0, 0));
    reg.register(18, RGBColor::new(0, 110, 120));
    reg.register(20, RGBColor::new(160, 207, 205));
    reg.register(22, RGBColor::new(60, 130, 200));
    reg.register(23, RGBColor::new(0, 82, 255));
    reg.register(24, RGBColor::new(165, 160, 155));
    reg.register(27, RGBColor::new(160, 207, 205));
    reg.register(31, RGBColor::new(2, 144, 240));
    reg.register(40, RGBColor::new(60, 130, 200));
    reg.register(44, RGBColor::new(0, 210, 190));
    reg.register(55, RGBColor::new(220, 0, 0));
    reg.register(63, RGBColor::new(0, 210, 190));
    reg.register(77, RGBColor::new(165, 160, 155));
    reg.register(81, RGBColor::new(255, 135, 0));
    proof {
        assert(reg.entries@ =~= standard_entries());
    }
    reg
}

} // verus!

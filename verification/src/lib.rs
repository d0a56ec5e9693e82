//! Core logic for an HD108 addressable RGB LED strip that visualizes
//! Formula 1 driver positions as moving colored lights along a circuit.
//!
//! The crate covers the per-LED command encoding, the assembly of a full
//! strip transmission, the resolution of sparse driver/LED updates against
//! a driver color registry, the playback state machine that iterates
//! visualization frames, and the debounced button input that starts and
//! stops playback.

#![allow(unused_imports)]
use vstd::prelude::*;

pub mod adapter;
pub mod buffer;
pub mod color;
pub mod data_frame;
pub mod encoder;
pub mod input;
pub mod led_data;
pub mod playback;
pub mod rng;
pub mod strip;

verus! {

/// Sum of two machine integers; the caller keeps the sum in range.
pub fn add(x: i32, y: i32) -> (r: i32)
    requires
        i32::MIN <= x + y <= i32::MAX,
    ensures
        r == x + y,
{
    x + y
}

} // verus!

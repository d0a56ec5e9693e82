//! Playback controller: consumes start/stop signals, iterates the frames
//! of a visualization at a fixed cadence, applies each to the strip, and
//! on stop, exhaustion or a bus failure turns the strip off and returns to
//! idle.
//!
//! The decisions live in an explicit state machine (`PlaybackState`,
//! `step`, `next_action`), so a host loop only performs the chosen action
//! — wait, apply one frame, or clear the strip — and feeds the outcome
//! back as an event. `play` runs one whole cycle against a bus, with the
//! stop polls supplied up front.

use vstd::prelude::*;
use crate::adapter::{resolve, resolve_spec};
use crate::color::{DriverRegistry, RGBColor};
use crate::data_frame::{UpdateFrame, VisualizationData};
use crate::strip::{Bus, CustomSpiError, HD108, LedUpdate, off_transmission, strip_transmission};

verus! {

/// Length of the startup animation's train of bright LEDs.
pub const TRAIN_LENGTH: usize = 15;

/// Background brightness during the startup animation.
pub const LOW_BRIGHTNESS: u8 = 10;

/// Train brightness during the startup animation.
pub const HIGH_BRIGHTNESS: u8 = 255;

/// The train's color at offset j from its head: five red, five blue, five
/// green.
pub open spec fn train_color(j: int) -> (u8, u8, u8) {
    if j < 5 {
        (HIGH_BRIGHTNESS, 0u8, 0u8)
    } else if j < 10 {
        (0u8, 0u8, HIGH_BRIGHTNESS)
    } else {
        (0u8, HIGH_BRIGHTNESS, 0u8)
    }
}

/// One step of the startup animation on a strip of n LEDs: every position
/// dimly lit, then the train's colors overwriting the positions from
/// `head` on, wrapping around the strip.
pub open spec fn startup_train_updates(head: int, n: nat) -> Seq<LedUpdate>
    recommends
        n > 0,
{
    Seq::new(
        n,
        |p: int| LedUpdate { led_index: p as usize, r: LOW_BRIGHTNESS, g: LOW_BRIGHTNESS, b: LOW_BRIGHTNESS },
    ) + Seq::new(
        TRAIN_LENGTH as nat,
        |j: int|
            LedUpdate {
                led_index: ((head + j) % n as int) as usize,
                r: train_color(j).0,
                g: train_color(j).1,
                b: train_color(j).2,
            },
    )
}

/// Builds the update list for one step of the startup animation. Later
/// entries overwrite earlier ones when applied, so the train shows over
/// the dim background.
pub fn startup_train_frame(head: usize, num_leds: usize) -> (out: Vec<LedUpdate>)
    requires
        0 < num_leds <= crate::strip::MAX_LEDS,
        head < num_leds,
    ensures
        out@ == startup_train_updates(head as int, num_leds as nat),
{
    let mut out: Vec<LedUpdate> = Vec::new();
    let ghost background = Seq::new(
        num_leds as nat,
        |p: int| LedUpdate { led_index: p as usize, r: LOW_BRIGHTNESS, g: LOW_BRIGHTNESS, b: LOW_BRIGHTNESS },
    );
    let mut p: usize = 0;
    while p < num_leds
        invariant
            p <= num_leds,
            background == Seq::new(
                num_leds as nat,
                |q: int| LedUpdate { led_index: q as usize, r: LOW_BRIGHTNESS, g: LOW_BRIGHTNESS, b: LOW_BRIGHTNESS },
            ),
            out@ =~= background.take(p as int),
        decreases num_leds - p,
    {
        out.push(LedUpdate { led_index: p, r: LOW_BRIGHTNESS, g: LOW_BRIGHTNESS, b: LOW_BRIGHTNESS });
        p += 1;
    }
    let mut j: usize = 0;
    while j < TRAIN_LENGTH
        invariant
            j <= TRAIN_LENGTH,
            0 < num_leds <= crate::strip::MAX_LEDS,
            head < num_leds,
            background == Seq::new(
                num_leds as nat,
                |q: int| LedUpdate { led_index: q as usize, r: LOW_BRIGHTNESS, g: LOW_BRIGHTNESS, b: LOW_BRIGHTNESS },
            ),
            out@ =~= background + Seq::new(
                j as nat,
                |q: int|
                    LedUpdate {
                        led_index: ((head + q) % num_leds as int) as usize,
                        r: train_color(q).0,
                        g: train_color(q).1,
                        b: train_color(q).2,
                    },
            ),
        decreases TRAIN_LENGTH - j,
    {
        let pos = (head + j) % num_leds;
        let color = if j < 5 {
            (HIGH_BRIGHTNESS, 0u8, 0u8)
        } else if j < 10 {
            (0u8, 0u8, HIGH_BRIGHTNESS)
        } else {
            (0u8, HIGH_BRIGHTNESS, 0u8)
        };
        out.push(LedUpdate { led_index: pos, r: color.0, g: color.1, b: color.2 });
        j += 1;
    }
    proof {
        assert(out@ =~= startup_train_updates(head as int, num_leds as nat));
    }
    out
}

/// Where the controller stands.
#[derive(Clone, Copy, Debug, PartialEq, Eq, Structural)]
pub enum PlaybackState {
    /// Waiting for a start signal.
    Idle,
    /// Mid-cycle; `next_frame` is the next frame to apply.
    Playing { next_frame: usize },
    /// A stop, failure or exhaustion ended the cycle; the strip is still
    /// to be cleared.
    Stopping,
}

/// What the surrounding loop must do next.
#[derive(Clone, Copy, Debug, PartialEq, Eq, Structural)]
pub enum PlaybackAction {
    /// Block on the signal channel.
    AwaitStart,
    /// Resolve and apply this frame, then delay and poll for a stop.
    ApplyFrame(usize),
    /// Command every LED off.
    TurnOff,
}

/// What the loop observed while performing the action.
#[derive(Clone, Copy, Debug, PartialEq, Eq, Structural)]
pub enum PlaybackEvent {
    /// A signal arrived while idle.
    StartSignal,
    /// The frame was applied to the strip.
    FrameApplied,
    /// The bus rejected the transmission.
    BusFailed,
    /// The frame could not be read from the byte stream; the rest of the
    /// stream is abandoned for this cycle.
    FrameUnreadable,
    /// The inter-frame poll found a stop signal.
    StopSignal,
    /// The inter-frame poll found nothing.
    NoStopSignal,
    /// The strip was commanded off (or the attempt failed; the cycle ends
    /// either way).
    StripCleared,
}

/// The action owed in a state: wait when idle, apply the next frame while
/// any remain, otherwise clear the strip.
pub open spec fn action_spec(state: PlaybackState, num_frames: usize) -> PlaybackAction {
    match state {
        PlaybackState::Idle => PlaybackAction::AwaitStart,
        PlaybackState::Playing { next_frame } => if next_frame < num_frames {
            PlaybackAction::ApplyFrame(next_frame)
        } else {
            PlaybackAction::TurnOff
        },
        PlaybackState::Stopping => PlaybackAction::TurnOff,
    }
}

/// The state after an event: a start signal begins a cycle at frame 0; an
/// applied frame advances by one; a stop signal or bus failure ends the
/// cycle; clearing the strip returns to idle. Anything else changes
/// nothing.
pub open spec fn step_spec(
    state: PlaybackState,
    num_frames: usize,
    event: PlaybackEvent,
) -> PlaybackState {
    match state {
        PlaybackState::Idle => match event {
            PlaybackEvent::StartSignal => PlaybackState::Playing { next_frame: 0 },
            _ => PlaybackState::Idle,
        },
        PlaybackState::Playing { next_frame } => match event {
            PlaybackEvent::FrameApplied => if next_frame < num_frames {
                PlaybackState::Playing { next_frame: (next_frame + 1) as usize }
            } else {
                state
            },
            PlaybackEvent::BusFailed => PlaybackState::Stopping,
            PlaybackEvent::FrameUnreadable => PlaybackState::Stopping,
            PlaybackEvent::StopSignal => PlaybackState::Stopping,
            PlaybackEvent::StripCleared => if next_frame >= num_frames {
                PlaybackState::Idle
            } else {
                state
            },
            _ => state,
        },
        PlaybackState::Stopping => match event {
            PlaybackEvent::StripCleared => PlaybackState::Idle,
            _ => PlaybackState::Stopping,
        },
    }
}

/// The action owed in a state.
pub fn next_action(state: PlaybackState, num_frames: usize) -> (a: PlaybackAction)
    ensures
        a == action_spec(state, num_frames),
{
    match state {
        PlaybackState::Idle => PlaybackAction::AwaitStart,
        PlaybackState::Playing { next_frame } => if next_frame < num_frames {
            PlaybackAction::ApplyFrame(next_frame)
        } else {
            PlaybackAction::TurnOff
        },
        PlaybackState::Stopping => PlaybackAction::TurnOff,
    }
}

/// Advances the controller by one observed event.
pub fn step(state: PlaybackState, num_frames: usize, event: PlaybackEvent) -> (next: PlaybackState)
    ensures
        next == step_spec(state, num_frames, event),
{
    match state {
        PlaybackState::Idle => match event {
            PlaybackEvent::StartSignal => PlaybackState::Playing { next_frame: 0 },
            _ => PlaybackState::Idle,
        },
        PlaybackState::Playing { next_frame } => match event {
            PlaybackEvent::FrameApplied => if next_frame < num_frames {
                PlaybackState::Playing { next_frame: next_frame + 1 }
            } else {
                state
            },
            PlaybackEvent::BusFailed => PlaybackState::Stopping,
            PlaybackEvent::FrameUnreadable => PlaybackState::Stopping,
            PlaybackEvent::StopSignal => PlaybackState::Stopping,
            PlaybackEvent::StripCleared => if next_frame >= num_frames {
                PlaybackState::Idle
            } else {
                state
            },
            _ => state,
        },
        PlaybackState::Stopping => match event {
            PlaybackEvent::StripCleared => PlaybackState::Idle,
            _ => PlaybackState::Stopping,
        },
    }
}

/// How many frames a cycle applies when the poll after frame i reads
/// `polls[i]`: it stops after the first frame whose poll is true, and
/// otherwise runs all n frames.
pub open spec fn applied_count(polls: Seq<bool>, n: int) -> int
    recommends
        n <= polls.len(),
    decreases n,
{
    if n <= 0 {
        0
    } else if polls[0] {
        1
    } else {
        1 + applied_count(polls.drop_first(), n - 1)
    }
}

/// A stop first polled after frame i ends the cycle with i+1 frames
/// applied.
pub proof fn lemma_applied_count_stop(polls: Seq<bool>, n: int, i: int)
    requires
        0 <= i < n <= polls.len(),
        polls[i],
        forall|k: int| 0 <= k < i ==> !polls[k],
    ensures
        applied_count(polls, n) == i + 1,
    decreases n,
{
    if i > 0 {
        lemma_applied_count_stop(polls.drop_first(), n - 1, i - 1);
    }
}

/// A cycle whose polls never read a stop applies every frame.
pub proof fn lemma_applied_count_nostop(polls: Seq<bool>, n: int)
    requires
        0 <= n <= polls.len(),
        forall|k: int| 0 <= k < n ==> !polls[k],
    ensures
        applied_count(polls, n) == n,
    decreases n,
{
    if n > 0 {
        lemma_applied_count_nostop(polls.drop_first(), n - 1);
    }
}

/// The transmissions of the first `count` frames of a visualization, each
/// resolved against the registry and framed for a strip of n LEDs.
pub open spec fn frame_transmissions(
    frames: Seq<UpdateFrame>,
    entries: Seq<(u32, RGBColor)>,
    count: int,
    n: nat,
) -> Seq<Seq<u8>> {
    Seq::new(count as nat, |i: int| strip_transmission(resolve_spec(frames[i].drivers@, entries), n))
}

/// Runs one whole playback cycle: applies the frames in order, polls for a
/// stop after each one, and always ends by commanding the strip off.
///
/// `stop_polls[i]` is what the poll after frame i reads. On success the
/// result counts the frames applied; the bus then carries exactly those
/// frames' transmissions followed by the off transmission. On a bus
/// failure the cycle ends early: the bus carries the frames that were
/// applied, and the off transmission only if the best-effort clear
/// succeeded.
pub fn play<B: Bus>(
    strip: &mut HD108<B>,
    data: &VisualizationData,
    registry: &DriverRegistry,
    stop_polls: &[bool],
) -> (r: Result<usize, CustomSpiError>)
    requires
        old(strip).wf(),
        stop_polls@.len() == data.frames@.len(),
    ensures
        final(strip).num_leds == old(strip).num_leds,
        ({
            let n = data.frames@.len() as int;
            let leds = old(strip).num_leds as nat;
            let applied = applied_count(stop_polls@, n);
            let before = old(strip).spi.transmissions();
            let entries = registry.entries@;
            match r {
                Ok(count) => count == applied && final(strip).spi.transmissions() == before
                    + frame_transmissions(data.frames@, entries, applied, leds).push(
                    off_transmission(leds),
                ),
                Err(_) => exists|j: int|
                    0 <= j <= applied && (final(strip).spi.transmissions() == before
                        + #[trigger] frame_transmissions(data.frames@, entries, j, leds)
                        || final(strip).spi.transmissions() == before + frame_transmissions(
                        data.frames@,
                        entries,
                        j,
                        leds,
                    ).push(off_transmission(leds))),
            }
        }),
{
    let num_frames = data.frames.len();
    let ghost n = num_frames as int;
    let ghost leds = old(strip).num_leds as nat;
    let ghost before = old(strip).spi.transmissions();
    let ghost entries = registry.entries@;
    let mut i: usize = 0;
    proof {
        assert(before + frame_transmissions(data.frames@, entries, 0, leds) =~= before);
    }
    while i < num_frames
        invariant
            i <= num_frames,
            num_frames == data.frames@.len(),
            stop_polls@.len() == num_frames,
            n == num_frames as int,
            strip.wf(),
            strip.num_leds == old(strip).num_leds,
            leds == old(strip).num_leds as nat,
            before == old(strip).spi.transmissions(),
            entries == registry.entries@,
            forall|k: int| 0 <= k < i ==> !stop_polls@[k],
            strip.spi.transmissions() == before + frame_transmissions(
                data.frames@,
                entries,
                i as int,
                leds,
            ),
        decreases num_frames - i,
    {
        let frame = data.frames[i];
        let updates = resolve(&frame, registry);
        let applied_result = strip.apply_updates(updates.as_slice());
        match applied_result {
            Ok(_) => {
                proof {
                    assert(before + frame_transmissions(data.frames@, entries, i + 1, leds)
                        =~= (before + frame_transmissions(data.frames@, entries, i as int, leds))
                        .push(strip_transmission(resolve_spec(frame.drivers@, entries), leds)));
                }
            },
            Err(e) => {
                // Cycle-fatal: clear the strip best-effort and go idle.
                let cleared = strip.set_off();
                proof {
                    crate::adapter::lemma_resolve_len(frame.drivers@, entries);
                    let j = i as int;
                    assert(0 <= j <= applied_count(stop_polls@, n)) by {
                        lemma_applied_count_at_least(stop_polls@, n, j);
                    }
                    if cleared is Ok {
                        assert((before + frame_transmissions(data.frames@, entries, j, leds)).push(
                            off_transmission(leds),
                        ) =~= before + frame_transmissions(data.frames@, entries, j, leds).push(
                            off_transmission(leds),
                        ));
                        assert(strip.spi.transmissions() == before + frame_transmissions(
                            data.frames@,
                            entries,
                            j,
                            leds,
                        ).push(off_transmission(leds)));
                    } else {
                        assert(strip.spi.transmissions() == before + frame_transmissions(
                            data.frames@,
                            entries,
                            j,
                            leds,
                        ));
                    }
                }
                return Err(e);
            },
        }
        let stop = stop_polls[i];
        i += 1;
        if stop {
            proof {
                lemma_applied_count_stop(stop_polls@, n, i as int - 1);
            }
            match strip.set_off() {
                Ok(_) => {
                    proof {
                        assert((before + frame_transmissions(data.frames@, entries, i as int, leds))
                            .push(off_transmission(leds)) =~= before + frame_transmissions(
                            data.frames@,
                            entries,
                            i as int,
                            leds,
                        ).push(off_transmission(leds)));
                    }
                    return Ok(i);
                },
                Err(e) => {
                    proof {
                        assert(0 <= i as int <= applied_count(stop_polls@, n));
                    }
                    return Err(e);
                },
            }
        }
    }
    proof {
        lemma_applied_count_nostop(stop_polls@, n);
    }
    match strip.set_off() {
        Ok(_) => {
            proof {
                assert((before + frame_transmissions(data.frames@, entries, n, leds)).push(
                    off_transmission(leds),
                ) =~= before + frame_transmissions(data.frames@, entries, n, leds).push(
                    off_transmission(leds),
                ));
            }
            Ok(num_frames)
        },
        Err(e) => {
            proof {
                assert(0 <= n <= applied_count(stop_polls@, n));
            }
            Err(e)
        },
    }
}

/// A cycle whose first i polls read no stop applies at least i frames.
pub proof fn lemma_applied_count_at_least(polls: Seq<bool>, n: int, i: int)
    requires
        0 <= i <= n <= polls.len(),
        forall|k: int| 0 <= k < i ==> !polls[k],
    ensures
        applied_count(polls, n) >= i,
    decreases i,
{
    if i > 0 {
        assert(!polls[0]);
        assert(forall|k: int| 0 <= k < i - 1 ==> !polls.drop_first()[k]);
        lemma_applied_count_at_least(polls.drop_first(), n - 1, i - 1);
    } else {
        lemma_applied_count_nonneg(polls, n);
    }
}

/// A cycle never applies a negative number of frames.
pub proof fn lemma_applied_count_nonneg(polls: Seq<bool>, n: int)
    requires
        n <= polls.len(),
    ensures
        applied_count(polls, n) >= 0,
    decreases n,
{
    if n > 0 && !polls[0] {
        lemma_applied_count_nonneg(polls.drop_first(), n - 1);
    }
}

} // verus!

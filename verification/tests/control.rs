//! Tests of the update resolution, the playback controller, the debounced
//! input source, the frame serialization and the small utilities.

use f1_logic::adapter::resolve;
use f1_logic::color::{standard_registry, DriverRegistry, RGBColor};
use f1_logic::data_frame::{
    parse_all_frames, DriverData, FrameParseError, UpdateFrame, VisualizationData,
    FRAME_SERIALIZED_SIZE, NUM_DRIVERS,
};
use f1_logic::input::{handle_edge, Debouncer, SignalSlot};
use f1_logic::playback::{
    next_action, play, startup_train_frame, step, PlaybackAction, PlaybackEvent, PlaybackState,
};
use f1_logic::rng::SimpleRng;
use f1_logic::strip::{RecordingBus, HD108};

fn frame_of(pairs: &[(u32, u32)]) -> UpdateFrame {
    let mut frame = UpdateFrame::new();
    for (slot, &(driver_number, led_num)) in pairs.iter().enumerate() {
        frame.set_driver(slot, DriverData { driver_number, led_num });
    }
    frame
}

#[test]
fn test_add() {
    assert_eq!(f1_logic::add(2, 3), 5);
    assert_eq!(f1_logic::add(0, 0), 0);
    assert_eq!(f1_logic::add(-1, 1), 0);
    assert_eq!(f1_logic::add(-2, -3), -5);
}

#[test]
fn resolve_drops_unregistered_drivers() {
    // registry = {1: (255,0,0), 2: (0,255,0)};
    // frame = [(1, led 5), (2, led 10), (99, led 20)]
    let mut registry = DriverRegistry::new();
    registry.register(1, RGBColor::new(255, 0, 0));
    registry.register(2, RGBColor::new(0, 255, 0));
    let frame = frame_of(&[(1, 5), (2, 10), (99, 20)]);
    let updates = resolve(&frame, &registry);
    assert_eq!(updates.len(), 2);
    assert_eq!(
        (updates[0].led_index, updates[0].r, updates[0].g, updates[0].b),
        (5, 255, 0, 0)
    );
    assert_eq!(
        (updates[1].led_index, updates[1].r, updates[1].g, updates[1].b),
        (10, 0, 255, 0)
    );
}

#[test]
fn resolve_skips_empty_slots() {
    let registry = standard_registry();
    let frame = UpdateFrame::new();
    assert_eq!(resolve(&frame, &registry).len(), 0);
}

#[test]
fn standard_registry_maps_twenty_drivers() {
    let registry = standard_registry();
    assert_eq!(registry.entries.len(), 20);
    assert_eq!(registry.lookup(1), Some(RGBColor::new(30, 65, 255)));
    assert_eq!(registry.lookup(44), Some(RGBColor::new(0, 210, 190)));
    assert_eq!(registry.lookup(81), Some(RGBColor::new(255, 135, 0)));
    assert_eq!(registry.lookup(99), None);
}

#[test]
fn registry_first_entry_wins() {
    let mut registry = DriverRegistry::new();
    registry.register(7, RGBColor::new(1, 1, 1));
    registry.register(7, RGBColor::new(2, 2, 2));
    assert_eq!(registry.lookup(7), Some(RGBColor::new(1, 1, 1)));
}

#[test]
fn playback_stops_after_polled_stop_signal() {
    // 10 frames; the poll after frame 3 (index 2) reads a stop: frames
    // 4..10 are never applied, the strip is cleared, and the controller
    // reports 3 applied frames.
    let registry = standard_registry();
    let mut frames = Vec::new();
    for i in 0..10u32 {
        frames.push(frame_of(&[(1, i)]));
    }
    let data = VisualizationData { update_rate_ms: 50, frames };
    let mut stop_polls = [false; 10];
    stop_polls[2] = true;
    let bus = RecordingBus::new();
    let mut strip = HD108::with_strip_len(bus, 16);
    let applied = play(&mut strip, &data, &registry, &stop_polls).unwrap();
    assert_eq!(applied, 3);
    let log = strip.spi.recorded();
    // three frame transmissions, then the off transmission
    assert_eq!(log.len(), 4);
    let bus_off = RecordingBus::new();
    let mut strip_off = HD108::with_strip_len(bus_off, 16);
    strip_off.set_off().unwrap();
    assert_eq!(log[3], strip_off.spi.recorded()[0]);
}

#[test]
fn playback_runs_all_frames_without_stop() {
    let registry = standard_registry();
    let frames = vec![frame_of(&[(1, 0)]), frame_of(&[(2, 1)])];
    let data = VisualizationData { update_rate_ms: 50, frames };
    let bus = RecordingBus::new();
    let mut strip = HD108::with_strip_len(bus, 8);
    let applied = play(&mut strip, &data, &registry, &[false, false]).unwrap();
    assert_eq!(applied, 2);
    assert_eq!(strip.spi.recorded().len(), 3);
}

#[test]
fn playback_bus_failure_is_cycle_fatal() {
    // The second frame's write fails; the best-effort clear also fails.
    let registry = standard_registry();
    let frames = vec![frame_of(&[(1, 0)]), frame_of(&[(2, 1)]), frame_of(&[(4, 2)])];
    let data = VisualizationData { update_rate_ms: 50, frames };
    let bus = RecordingBus::failing_after(1);
    let mut strip = HD108::with_strip_len(bus, 8);
    assert!(play(&mut strip, &data, &registry, &[false, false, false]).is_err());
    assert_eq!(strip.spi.recorded().len(), 1);
}

#[test]
fn state_machine_walks_one_cycle() {
    let n = 2usize;
    let s0 = PlaybackState::Idle;
    assert_eq!(next_action(s0, n), PlaybackAction::AwaitStart);
    let s1 = step(s0, n, PlaybackEvent::StartSignal);
    assert_eq!(s1, PlaybackState::Playing { next_frame: 0 });
    assert_eq!(next_action(s1, n), PlaybackAction::ApplyFrame(0));
    let s2 = step(s1, n, PlaybackEvent::FrameApplied);
    let s3 = step(s2, n, PlaybackEvent::NoStopSignal);
    assert_eq!(s3, PlaybackState::Playing { next_frame: 1 });
    let s4 = step(s3, n, PlaybackEvent::FrameApplied);
    assert_eq!(next_action(s4, n), PlaybackAction::TurnOff);
    let s5 = step(s4, n, PlaybackEvent::StripCleared);
    assert_eq!(s5, PlaybackState::Idle);
}

#[test]
fn state_machine_stop_signal_clears_then_idles() {
    let n = 10usize;
    let playing = PlaybackState::Playing { next_frame: 4 };
    let stopping = step(playing, n, PlaybackEvent::StopSignal);
    assert_eq!(stopping, PlaybackState::Stopping);
    assert_eq!(next_action(stopping, n), PlaybackAction::TurnOff);
    assert_eq!(step(stopping, n, PlaybackEvent::StripCleared), PlaybackState::Idle);
}

#[test]
fn state_machine_bus_failure_aborts_cycle() {
    let n = 10usize;
    let playing = PlaybackState::Playing { next_frame: 4 };
    assert_eq!(step(playing, n, PlaybackEvent::BusFailed), PlaybackState::Stopping);
}

#[test]
fn double_press_within_debounce_sends_once() {
    // Two falling edges 50 ms apart with a 400 ms debounce: only one
    // toggle is enqueued.
    let mut detector = Debouncer::new(400);
    let mut slot = SignalSlot::new();
    assert!(handle_edge(&mut detector, &mut slot, 1000));
    assert!(!handle_edge(&mut detector, &mut slot, 1050));
    assert!(slot.try_receive());
    assert!(!slot.try_receive());
}

#[test]
fn edge_after_debounce_window_rearms() {
    let mut detector = Debouncer::new(400);
    let mut slot = SignalSlot::new();
    assert!(handle_edge(&mut detector, &mut slot, 1000));
    assert!(slot.try_receive());
    assert!(!handle_edge(&mut detector, &mut slot, 1399));
    assert!(handle_edge(&mut detector, &mut slot, 1400));
    assert!(slot.try_receive());
}

#[test]
fn full_slot_coalesces_presses() {
    let mut detector = Debouncer::new(100);
    let mut slot = SignalSlot::new();
    assert!(handle_edge(&mut detector, &mut slot, 0));
    // Debounce elapsed, but the first toggle is still unconsumed.
    assert!(!handle_edge(&mut detector, &mut slot, 500));
    assert!(slot.try_receive());
    assert!(!slot.try_receive());
}

#[test]
fn frame_serialization_round_trips() {
    let frame = frame_of(&[(1, 25), (44, 51), (81, 95)]);
    let bytes = frame.to_bytes();
    assert_eq!(bytes.len(), FRAME_SERIALIZED_SIZE);
    let back = UpdateFrame::try_from_bytes(&bytes).unwrap();
    assert_eq!(back, frame);
}

#[test]
fn try_from_bytes_rejects_short_input() {
    let bytes = vec![0u8; FRAME_SERIALIZED_SIZE - 1];
    assert_eq!(
        UpdateFrame::try_from_bytes(&bytes),
        Err(FrameParseError::TooShort)
    );
}

#[test]
fn try_from_bytes_rejects_bad_tag() {
    let mut bytes = vec![0u8; FRAME_SERIALIZED_SIZE];
    bytes[9] = 7;
    assert_eq!(
        UpdateFrame::try_from_bytes(&bytes),
        Err(FrameParseError::BadSlotTag)
    );
}

#[test]
fn try_from_bytes_ignores_trailing_bytes() {
    let frame = frame_of(&[(16, 65)]);
    let mut bytes = frame.to_bytes();
    bytes.extend_from_slice(&[9, 9, 9]);
    assert_eq!(UpdateFrame::try_from_bytes(&bytes).unwrap(), frame);
}

#[test]
fn parse_all_frames_reads_a_whole_stream() {
    let first = frame_of(&[(1, 2)]);
    let second = frame_of(&[(2, 3), (4, 4)]);
    let mut bytes = first.to_bytes();
    bytes.extend_from_slice(&second.to_bytes());
    let frames = parse_all_frames(&bytes).unwrap();
    assert_eq!(frames.len(), 2);
    assert_eq!(frames[0], first);
    assert_eq!(frames[1], second);
}

#[test]
fn parse_all_frames_rejects_partial_trailing_frame() {
    let mut bytes = frame_of(&[(1, 2)]).to_bytes();
    bytes.push(0);
    assert_eq!(parse_all_frames(&bytes), Err(FrameParseError::TooShort));
}

#[test]
fn parse_all_frames_rejects_bad_chunk() {
    let mut bytes = frame_of(&[(1, 2)]).to_bytes();
    let mut second = frame_of(&[(2, 3)]).to_bytes();
    second[0] = 9;
    bytes.extend_from_slice(&second);
    assert_eq!(parse_all_frames(&bytes), Err(FrameParseError::BadSlotTag));
}

#[test]
fn empty_frame_has_twenty_free_slots() {
    let frame = UpdateFrame::new();
    assert_eq!(frame.drivers.len(), NUM_DRIVERS);
    assert!(frame.drivers.iter().all(|slot| slot.is_none()));
}

#[test]
fn rng_follows_the_lcg() {
    let mut rng = SimpleRng::new(42);
    assert_eq!(rng.next_u32(), 2104627054);
    assert_eq!(rng.next_u32(), 2013331137);
    let mut rng2 = SimpleRng::new(42);
    assert_eq!(rng2.next_u64(), 9039304369220157121);
    assert_eq!(rng.seed, rng2.seed);
}

#[test]
fn snapshot_frame_records_led_states() {
    let mut snap = f1_logic::led_data::UpdateFrame::new(123456);
    snap.set_led_state(5, (255, 0, 0));
    snap.set_led_state(9, (0, 255, 0));
    assert_eq!(snap.timestamp, 123456);
    assert_eq!(snap.led_states, vec![(5, (255, 0, 0)), (9, (0, 255, 0))]);
}

#[test]
fn startup_train_rides_over_dim_background() {
    let updates = startup_train_frame(0, 20);
    // 20 dim background entries, then the 15 train entries.
    assert_eq!(updates.len(), 35);
    let u = updates[0];
    assert_eq!((u.led_index, u.r, u.g, u.b), (0, 10, 10, 10));
    let head = updates[20];
    assert_eq!((head.led_index, head.r, head.g, head.b), (0, 255, 0, 0));
    let mid = updates[25];
    assert_eq!((mid.led_index, mid.r, mid.g, mid.b), (5, 0, 0, 255));
    let tail = updates[30];
    assert_eq!((tail.led_index, tail.r, tail.g, tail.b), (10, 0, 255, 0));
}

#[test]
fn startup_train_wraps_around_the_strip() {
    let updates = startup_train_frame(18, 20);
    assert_eq!(updates[20].led_index, 18);
    assert_eq!(updates[21].led_index, 19);
    assert_eq!(updates[22].led_index, 0);
}

#[test]
fn state_machine_parse_failure_abandons_cycle() {
    let n = 10usize;
    let playing = PlaybackState::Playing { next_frame: 4 };
    let stopping = step(playing, n, PlaybackEvent::FrameUnreadable);
    assert_eq!(stopping, PlaybackState::Stopping);
    assert_eq!(next_action(stopping, n), PlaybackAction::TurnOff);
}

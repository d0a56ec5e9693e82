//! Tests of the HD108 command encoding and the strip driver's
//! transmissions, observed through a recording bus.

use f1_logic::buffer::TRANSMISSION_CAP;
use f1_logic::encoder::{create_led_frame, encode_with_gain, GainConfig, LED_FRAME_LEN};
use f1_logic::strip::{
    build_transmission, Bus, LedUpdate, RecordingBus, HD108, MAX_LEDS, START_PADDING_LEN,
};

const OFF_FRAME: [u8; 8] = [0x88, 0x42, 0, 0, 0, 0, 0, 0];

fn expected_len(n: usize) -> usize {
    START_PADDING_LEN + n * LED_FRAME_LEN + (n + 7) / 8
}

#[test]
fn encode_splits_channels_big_endian() {
    let frame = create_led_frame(0x1234, 0x5678, 0x9ABC);
    assert_eq!(frame, [0x88, 0x42, 0x12, 0x34, 0x56, 0x78, 0x9A, 0xBC]);
}

#[test]
fn encode_round_trips_all_channel_extremes() {
    for &(r, g, b) in &[
        (0u16, 0u16, 0u16),
        (0xFFFF, 0xFFFF, 0xFFFF),
        (1, 0x8000, 0x7FFF),
        (0x00FF, 0xFF00, 0x0101),
    ] {
        let f = create_led_frame(r, g, b);
        assert_eq!(((f[2] as u16) << 8) | f[3] as u16, r);
        assert_eq!(((f[4] as u16) << 8) | f[5] as u16, g);
        assert_eq!(((f[6] as u16) << 8) | f[7] as u16, b);
    }
}

#[test]
fn encode_off_command() {
    assert_eq!(create_led_frame(0, 0, 0), OFF_FRAME);
}

#[test]
fn encode_gain_word_packs_three_levels() {
    // levels (1, 2, 3): word = 1*1024 + 2*32 + 3 = 0x0443
    let gain = GainConfig { red_level: 1, green_level: 2, blue_level: 3 };
    let frame = encode_with_gain(&gain, 0, 0, 0);
    assert_eq!(frame[0], 0x84);
    assert_eq!(frame[1], 0x43);
}

#[test]
fn transmission_length_counts_every_led() {
    for n in [0usize, 1, 4, 8, 9, 95, 96] {
        let buf = build_transmission(&[], n);
        assert_eq!(buf.as_slice().len(), expected_len(n));
    }
    assert_eq!(expected_len(MAX_LEDS), TRANSMISSION_CAP);
}

#[test]
fn apply_updates_commands_untouched_leds_off() {
    // N=4, one update at position 2: commands are off, off, color, off.
    let bus = RecordingBus::new();
    let mut strip = HD108::with_strip_len(bus, 4);
    let updates = vec![LedUpdate::new(2, 10, 20, 30)];
    strip.apply_updates(&updates).unwrap();
    let log = strip.spi.recorded();
    assert_eq!(log.len(), 1);
    let tx = &log[0];
    assert_eq!(tx.len(), expected_len(4));
    assert_eq!(&tx[..16], &[0u8; 16][..]);
    assert_eq!(&tx[16..24], &OFF_FRAME[..]);
    assert_eq!(&tx[24..32], &OFF_FRAME[..]);
    // 10, 20, 30 widened to 16 bits: 0x0A0A, 0x1414, 0x1E1E
    assert_eq!(&tx[32..40], &[0x88, 0x42, 0x0A, 0x0A, 0x14, 0x14, 0x1E, 0x1E][..]);
    assert_eq!(&tx[40..48], &OFF_FRAME[..]);
    assert_eq!(&tx[48..], &[0u8][..]);
}

#[test]
fn apply_updates_ignores_out_of_range_index() {
    let bus = RecordingBus::new();
    let mut strip = HD108::with_strip_len(bus, 2);
    let updates = vec![LedUpdate::new(5, 9, 9, 9)];
    strip.apply_updates(&updates).unwrap();
    let tx = &strip.spi.recorded()[0];
    assert_eq!(&tx[16..24], &OFF_FRAME[..]);
    assert_eq!(&tx[24..32], &OFF_FRAME[..]);
}

#[test]
fn apply_updates_later_duplicate_wins() {
    let bus = RecordingBus::new();
    let mut strip = HD108::with_strip_len(bus, 1);
    let updates = vec![LedUpdate::new(0, 1, 1, 1), LedUpdate::new(0, 2, 2, 2)];
    strip.apply_updates(&updates).unwrap();
    let tx = &strip.spi.recorded()[0];
    assert_eq!(&tx[16..24], &[0x88, 0x42, 0x02, 0x02, 0x02, 0x02, 0x02, 0x02][..]);
}

#[test]
fn set_off_twice_produces_identical_transactions() {
    let bus = RecordingBus::new();
    let mut strip = HD108::new(bus);
    strip.set_off().unwrap();
    strip.set_off().unwrap();
    let log = strip.spi.recorded();
    assert_eq!(log.len(), 2);
    assert_eq!(log[0], log[1]);
    assert_eq!(log[0].len(), expected_len(96));
}

#[test]
fn set_off_equals_apply_no_updates() {
    let bus_a = RecordingBus::new();
    let mut strip_a = HD108::new(bus_a);
    strip_a.set_off().unwrap();
    let bus_b = RecordingBus::new();
    let mut strip_b = HD108::new(bus_b);
    strip_b.apply_updates(&[]).unwrap();
    assert_eq!(strip_a.spi.recorded()[0], strip_b.spi.recorded()[0]);
}

#[test]
fn make_red_lights_only_that_led() {
    let bus = RecordingBus::new();
    let mut strip = HD108::with_strip_len(bus, 3);
    strip.make_red(1).unwrap();
    let tx = &strip.spi.recorded()[0];
    assert_eq!(&tx[16..24], &OFF_FRAME[..]);
    assert_eq!(&tx[24..32], &[0x88, 0x42, 0xFF, 0xFF, 0, 0, 0, 0][..]);
    assert_eq!(&tx[32..40], &OFF_FRAME[..]);
}

#[test]
fn make_red_green_paints_head_red_rest_green() {
    let bus = RecordingBus::new();
    let mut strip = HD108::with_strip_len(bus, 3);
    strip.make_red_green().unwrap();
    let tx = &strip.spi.recorded()[0];
    assert_eq!(&tx[16..24], &[0x88, 0x42, 0xFF, 0xFF, 0, 0, 0, 0][..]);
    assert_eq!(&tx[24..32], &[0x88, 0x42, 0, 0, 0xFF, 0xFF, 0, 0][..]);
    assert_eq!(&tx[32..40], &[0x88, 0x42, 0, 0, 0xFF, 0xFF, 0, 0][..]);
}

#[test]
fn set_led_widens_each_channel() {
    let bus = RecordingBus::new();
    let mut strip = HD108::with_strip_len(bus, 1);
    strip.set_led(0, 0xAB, 0x01, 0xFF).unwrap();
    let tx = &strip.spi.recorded()[0];
    assert_eq!(&tx[16..24], &[0x88, 0x42, 0xAB, 0xAB, 0x01, 0x01, 0xFF, 0xFF][..]);
}

#[test]
fn failing_bus_records_nothing() {
    let bus = RecordingBus::failing_after(0);
    let mut strip = HD108::with_strip_len(bus, 4);
    let updates = vec![LedUpdate::new(0, 1, 2, 3)];
    assert!(strip.apply_updates(&updates).is_err());
    assert_eq!(strip.spi.recorded().len(), 0);
}

#[test]
fn recording_bus_write_honors_budget() {
    let mut bus = RecordingBus::failing_after(1);
    assert!(bus.write(&[1, 2, 3]).is_ok());
    assert!(bus.write(&[4]).is_err());
    assert_eq!(bus.recorded().len(), 1);
    assert_eq!(bus.recorded()[0], vec![1, 2, 3]);
}

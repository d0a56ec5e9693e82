//! Per-LED command encoding for the HD108 protocol.
//!
//! Each LED is driven by an 8-byte command: a header byte whose top bit is
//! the start-of-frame marker and whose low 7 bits are the top bits of a
//! 15-bit current-gain word, a second byte with the remaining 8 gain bits,
//! and three 16-bit color channels, each big-endian.

use vstd::prelude::*;
use vstd::arithmetic::div_mod::lemma_fundamental_div_mod;

verus! {

/// Number of bytes in one per-LED command.
pub const LED_FRAME_LEN: usize = 8;

/// Current-gain regulation level used for every channel when no explicit
/// gain configuration is given: level 2, about 2.24 mA per channel.
pub const DEFAULT_CHANNEL_GAIN: u8 = 2;

/// Per-channel current-gain configuration. Each level is a 5-bit value;
/// the three levels are packed into a 15-bit word in the command header.
#[derive(Clone, Copy, Debug, PartialEq, Eq, Structural)]
pub struct GainConfig {
    pub red_level: u8,
    pub green_level: u8,
    pub blue_level: u8,
}

impl GainConfig {
    /// Each regulation level fits in its 5-bit sub-field.
    pub open spec fn wf(self) -> bool {
        self.red_level < 32 && self.green_level < 32 && self.blue_level < 32
    }

    /// The 15-bit gain word: red in bits 10..15, green in bits 5..10,
    /// blue in bits 0..5.
    pub open spec fn word_spec(self) -> int {
        self.red_level * 1024 + self.green_level * 32 + self.blue_level
    }

    /// The gain configuration applied when none is chosen explicitly.
    pub fn default_config() -> (g: GainConfig)
        ensures
            g.wf(),
            g.word_spec() == 2114,
    {
        GainConfig { red_level: DEFAULT_CHANNEL_GAIN, green_level: DEFAULT_CHANNEL_GAIN, blue_level: DEFAULT_CHANNEL_GAIN }
    }

    /// Packs the three levels into the 15-bit gain word.
    pub fn word(&self) -> (w: u16)
        requires
            self.wf(),
        ensures
            w == self.word_spec(),
            w < 0x8000,
    {
        (self.red_level as u16) * 1024 + (self.green_level as u16) * 32 + (self.blue_level as u16)
    }
}

/// The 8 bytes of one LED command: header with start bit and high gain
/// bits, low gain bits, then R, G, B as big-endian 16-bit values.
pub open spec fn led_frame_bytes(gain: int, red: u16, green: u16, blue: u16) -> Seq<u8>
    recommends
        0 <= gain < 0x8000,
{
    seq![
        (128 + gain / 256) as u8,
        (gain % 256) as u8,
        (red / 256) as u8,
        (red % 256) as u8,
        (green / 256) as u8,
        (green % 256) as u8,
        (blue / 256) as u8,
        (blue % 256) as u8,
    ]
}

/// The command that turns an LED off: all three channels zero, default gain.
pub open spec fn off_frame_bytes() -> Seq<u8> {
    led_frame_bytes(2114, 0, 0, 0)
}

/// Encodes one LED command for the given gain configuration and 16-bit
/// color channels.
pub fn encode_with_gain(gain: &GainConfig, red: u16, green: u16, blue: u16) -> (frame: [u8; 8])
    requires
        gain.wf(),
    ensures
        frame@ == led_frame_bytes(gain.word_spec(), red, green, blue),
{
    let word: u16 = gain.word();
    let frame: [u8; 8] = [
        (128 + word / 256) as u8,
        (word % 256) as u8,
        (red / 256) as u8,
        (red % 256) as u8,
        (green / 256) as u8,
        (green % 256) as u8,
        (blue / 256) as u8,
        (blue % 256) as u8,
    ];
    proof {
        assert(frame@ =~= led_frame_bytes(gain.word_spec(), red, green, blue));
    }
    frame
}

/// Encodes one LED command with the default gain configuration.
pub fn create_led_frame(red: u16, green: u16, blue: u16) -> (frame: [u8; 8])
    ensures
        frame@ == led_frame_bytes(2114, red, green, blue),
{
    let gain = GainConfig::default_config();
    encode_with_gain(&gain, red, green, blue)
}

/// Law: the color bytes of an encoded command decode back to exactly the
/// three channels by big-endian reconstruction, for every 16-bit input.
pub proof fn lemma_frame_round_trip(gain: int, red: u16, green: u16, blue: u16)
    requires
        0 <= gain < 0x8000,
    ensures
        ({
            let f = led_frame_bytes(gain, red, green, blue);
            &&& f.len() == 8
            &&& (f[2] as int) * 256 + f[3] == red
            &&& (f[4] as int) * 256 + f[5] == green
            &&& (f[6] as int) * 256 + f[7] == blue
        }),
{
    lemma_fundamental_div_mod(red as int, 256);
    lemma_fundamental_div_mod(green as int, 256);
    lemma_fundamental_div_mod(blue as int, 256);
}

} // verus!

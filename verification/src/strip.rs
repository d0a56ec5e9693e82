//! The HD108 strip driver: owns the bus handle and turns a sparse list of
//! LED updates into one complete, correctly framed transmission.
//!
//! A transmission addresses every physical LED each cycle: a start padding
//! of zero bytes, one 8-byte command per LED position in ascending order
//! (untouched positions are explicitly commanded off), and trailing clock
//! bytes that shift the last LED's data through the daisy-chain.

use vstd::prelude::*;
use vstd::slice::slice_to_vec;
use crate::buffer::{TRANSMISSION_CAP, buffer_bytes, buffer_new, buffer_extend, buffer_as_slice};
use crate::encoder::{led_frame_bytes, off_frame_bytes, create_led_frame};

verus! {

/// Largest strip length the transmission buffer can hold.
pub const MAX_LEDS: usize = 96;

/// Bytes of zero padding that precede every transmission; 128 bits of
/// zeros reset the chips' frame detection.
pub const START_PADDING_LEN: usize = 16;

/// A pending change for one LED: its position on the strip and an 8-bit
/// color. Positions at or beyond the strip length are ignored by the
/// driver rather than rejected, so a partially valid frame still shows.
#[derive(Clone, Copy, Debug, PartialEq, Eq, Structural)]
pub struct LedUpdate {
    pub led_index: usize,
    pub r: u8,
    pub g: u8,
    pub b: u8,
}

impl LedUpdate {
    pub fn new(led_index: usize, r: u8, g: u8, b: u8) -> (u: LedUpdate)
        ensures
            u == (LedUpdate { led_index, r, g, b }),
    {
        LedUpdate { led_index, r, g, b }
    }
}

/// Physical transmission failure reported by the bus.
#[derive(Clone, Copy, Debug, PartialEq, Eq, Structural)]
pub struct CustomSpiError;

/// The synchronous serial bus a strip driver writes to. `transmissions`
/// is the history of completed writes; a failed write completes nothing.
pub trait Bus: Sized {
    spec fn transmissions(&self) -> Seq<Seq<u8>>;

    fn write(&mut self, bytes: &[u8]) -> (r: Result<(), CustomSpiError>)
        ensures
            r is Ok ==> final(self).transmissions() == old(self).transmissions().push(bytes@),
            r is Err ==> final(self).transmissions() == old(self).transmissions(),
    ;
}

/// An in-memory bus that records every transmission; it can be told to
/// start failing after a number of successful writes.
pub struct RecordingBus {
    pub log: Vec<Vec<u8>>,
    pub ok_budget: Option<usize>,
}

impl RecordingBus {
    /// A bus on which every write succeeds.
    pub fn new() -> (bus: RecordingBus)
        ensures
            bus.transmissions() == Seq::<Seq<u8>>::empty(),
            bus.ok_budget is None,
    {
        RecordingBus { log: Vec::new(), ok_budget: None }
    }

    /// A bus on which only the first `ok_writes` writes succeed.
    pub fn failing_after(ok_writes: usize) -> (bus: RecordingBus)
        ensures
            bus.transmissions() == Seq::<Seq<u8>>::empty(),
            bus.ok_budget == Some(ok_writes),
    {
        RecordingBus { log: Vec::new(), ok_budget: Some(ok_writes) }
    }

    /// The recorded transmissions, oldest first.
    pub fn recorded(&self) -> (log: &Vec<Vec<u8>>)
        ensures
            log@.len() == self.transmissions().len(),
            forall|i: int| 0 <= i < log@.len() ==> log@[i]@ == self.transmissions()[i],
    {
        &self.log
    }
}

impl Bus for RecordingBus {
    open spec fn transmissions(&self) -> Seq<Seq<u8>> {
        Seq::new(self.log@.len(), |i: int| self.log@[i]@)
    }

    fn write(&mut self, bytes: &[u8]) -> (r: Result<(), CustomSpiError>) {
        match self.ok_budget {
            Some(budget) => {
                if budget == 0 {
                    proof {
                        assert(self.transmissions() =~= old(self).transmissions());
                    }
                    Err(CustomSpiError)
                } else {
                    self.ok_budget = Some(budget - 1);
                    self.log.push(slice_to_vec(bytes));
                    proof {
                        assert(self.transmissions() =~= old(self).transmissions().push(bytes@));
                    }
                    Ok(())
                }
            },
            None => {
                self.log.push(slice_to_vec(bytes));
                proof {
                    assert(self.transmissions() =~= old(self).transmissions().push(bytes@));
                }
                Ok(())
            },
        }
    }
}

/// An 8-bit channel widened to the protocol's 16-bit range, so that 255
/// maps to full intensity 65535.
pub open spec fn scale8(v: u8) -> u16 {
    (v * 257) as u16
}

/// The 16-bit color commanded for each of the n strip positions after the
/// updates are applied in order: positions start off (0,0,0), every valid
/// update overwrites its position (a later duplicate wins), and updates at
/// or beyond n are ignored.
pub open spec fn color_table(updates: Seq<LedUpdate>, n: nat) -> Seq<(u16, u16, u16)>
    decreases updates.len(),
{
    if updates.len() == 0 {
        Seq::new(n, |i: int| (0u16, 0u16, 0u16))
    } else {
        let prev = color_table(updates.drop_last(), n);
        let u = updates.last();
        if u.led_index < n {
            prev.update(u.led_index as int, (scale8(u.r), scale8(u.g), scale8(u.b)))
        } else {
            prev
        }
    }
}

/// The 8-byte command that sets one position to the given 16-bit color.
pub open spec fn command_for(c: (u16, u16, u16)) -> Seq<u8> {
    led_frame_bytes(2114, c.0, c.1, c.2)
}

/// The concatenated commands for a sequence of positions, in order.
pub open spec fn led_block(colors: Seq<(u16, u16, u16)>) -> Seq<u8>
    decreases colors.len(),
{
    if colors.len() == 0 {
        Seq::<u8>::empty()
    } else {
        led_block(colors.drop_last()) + command_for(colors.last())
    }
}

/// The zero bytes that precede every transmission.
pub open spec fn start_padding() -> Seq<u8> {
    Seq::new(START_PADDING_LEN as nat, |i: int| 0u8)
}

/// Number of trailing clock bytes for a strip of n LEDs: at least one
/// clock pulse per LED, rounded up to whole bytes.
pub open spec fn trailing_clock_len(n: nat) -> nat {
    ((n + 7) / 8) as nat
}

/// The trailing clock bytes for a strip of n LEDs.
pub open spec fn trailing_clocks(n: nat) -> Seq<u8> {
    Seq::new(trailing_clock_len(n), |i: int| 0u8)
}

/// One complete transmission for a strip of n LEDs: start padding, one
/// command per position in ascending order, trailing clocks.
pub open spec fn strip_transmission(updates: Seq<LedUpdate>, n: nat) -> Seq<u8> {
    start_padding() + led_block(color_table(updates, n)) + trailing_clocks(n)
}

/// The transmission that commands every LED off.
pub open spec fn off_transmission(n: nat) -> Seq<u8> {
    strip_transmission(Seq::<LedUpdate>::empty(), n)
}

/// The color table has one entry per strip position.
pub proof fn lemma_color_table_len(updates: Seq<LedUpdate>, n: nat)
    ensures
        color_table(updates, n).len() == n,
    decreases updates.len(),
{
    if updates.len() > 0 {
        lemma_color_table_len(updates.drop_last(), n);
    }
}

/// The command block is 8 bytes per position.
pub proof fn lemma_led_block_len(colors: Seq<(u16, u16, u16)>)
    ensures
        led_block(colors).len() == 8 * colors.len(),
    decreases colors.len(),
{
    if colors.len() > 0 {
        lemma_led_block_len(colors.drop_last());
    }
}

/// Law: a transmission addresses all n LEDs: its length is the start
/// padding plus 8 bytes per LED plus the trailing clock bytes.
pub proof fn lemma_transmission_len(updates: Seq<LedUpdate>, n: nat)
    ensures
        strip_transmission(updates, n).len() == START_PADDING_LEN + 8 * n + trailing_clock_len(n),
{
    lemma_color_table_len(updates, n);
    lemma_led_block_len(color_table(updates, n));
}

/// Within a command block, position i's command occupies bytes 8i..8i+8.
pub proof fn lemma_led_block_segment(colors: Seq<(u16, u16, u16)>, i: int)
    requires
        0 <= i < colors.len(),
    ensures
        led_block(colors).subrange(8 * i, 8 * i + 8) == command_for(colors[i]),
    decreases colors.len(),
{
    lemma_led_block_len(colors);
    if i == colors.len() - 1 {
        lemma_led_block_len(colors.drop_last());
        assert(led_block(colors).subrange(8 * i, 8 * i + 8) =~= command_for(colors[i]));
    } else {
        lemma_led_block_segment(colors.drop_last(), i);
        lemma_led_block_len(colors.drop_last());
        assert(led_block(colors).subrange(8 * i, 8 * i + 8) =~= led_block(
            colors.drop_last(),
        ).subrange(8 * i, 8 * i + 8));
    }
}

/// Law: the command block for position i within a transmission is the
/// command for that position's entry in the color table.
pub proof fn lemma_led_command_segment(updates: Seq<LedUpdate>, n: nat, i: int)
    requires
        0 <= i < n,
    ensures
        strip_transmission(updates, n).subrange(
            START_PADDING_LEN + 8 * i,
            START_PADDING_LEN + 8 * i + 8,
        ) == command_for(color_table(updates, n)[i]),
{
    lemma_color_table_len(updates, n);
    lemma_led_block_len(color_table(updates, n));
    lemma_led_block_segment(color_table(updates, n), i);
    assert(strip_transmission(updates, n).subrange(
        START_PADDING_LEN + 8 * i,
        START_PADDING_LEN + 8 * i + 8,
    ) =~= led_block(color_table(updates, n)).subrange(8 * i, 8 * i + 8));
}

/// Law: a position that no update addresses is commanded off.
pub proof fn lemma_untouched_position_off(updates: Seq<LedUpdate>, n: nat, i: int)
    requires
        0 <= i < n,
        forall|k: int| 0 <= k < updates.len() ==> updates[k].led_index != i,
    ensures
        color_table(updates, n)[i] == (0u16, 0u16, 0u16),
    decreases updates.len(),
{
    if updates.len() > 0 {
        assert(forall|k: int|
            0 <= k < updates.drop_last().len() ==> updates.drop_last()[k].led_index != i);
        lemma_untouched_position_off(updates.drop_last(), n, i);
        lemma_color_table_len(updates.drop_last(), n);
    }
}

/// Law: a position that exactly one update addresses is commanded to that
/// update's color, widened to 16 bits.
pub proof fn lemma_updated_position_color(updates: Seq<LedUpdate>, n: nat, k: int)
    requires
        0 <= k < updates.len(),
        updates[k].led_index < n,
        forall|j: int|
            0 <= j < updates.len() && j != k ==> updates[j].led_index != updates[k].led_index,
    ensures
        color_table(updates, n)[updates[k].led_index as int] == (
            scale8(updates[k].r),
            scale8(updates[k].g),
            scale8(updates[k].b),
        ),
    decreases updates.len(),
{
    lemma_color_table_len(updates.drop_last(), n);
    if k < updates.len() - 1 {
        lemma_updated_position_color(updates.drop_last(), n, k);
    }
}

/// Law: in a full transmission, the command block of a position that
/// exactly one update addresses encodes that update's color.
pub proof fn lemma_updated_segment(updates: Seq<LedUpdate>, n: nat, k: int)
    requires
        0 <= k < updates.len(),
        updates[k].led_index < n,
        forall|j: int|
            0 <= j < updates.len() && j != k ==> updates[j].led_index != updates[k].led_index,
    ensures
        ({
            let i = updates[k].led_index as int;
            strip_transmission(updates, n).subrange(
                START_PADDING_LEN + 8 * i,
                START_PADDING_LEN + 8 * i + 8,
            ) == command_for((scale8(updates[k].r), scale8(updates[k].g), scale8(updates[k].b)))
        }),
{
    lemma_updated_position_color(updates, n, k);
    lemma_led_command_segment(updates, n, updates[k].led_index as int);
}

/// Law: in a full transmission, the command block of a position that no
/// update addresses is exactly the off command.
pub proof fn lemma_off_unless_updated(updates: Seq<LedUpdate>, n: nat, i: int)
    requires
        0 <= i < n,
        forall|k: int| 0 <= k < updates.len() ==> updates[k].led_index != i,
    ensures
        strip_transmission(updates, n).subrange(
            START_PADDING_LEN + 8 * i,
            START_PADDING_LEN + 8 * i + 8,
        ) == off_frame_bytes(),
{
    lemma_led_command_segment(updates, n, i);
    lemma_untouched_position_off(updates, n, i);
}

fn vec_set<T>(v: &mut Vec<T>, i: usize, value: T)
    requires
        i < old(v)@.len(),
    ensures
        final(v)@ == old(v)@.update(i as int, value),
{
    v[i] = value;
}

/// Builds the complete byte transmission for a strip of `num_leds` LEDs
/// from a sparse update list.
pub fn build_transmission(updates: &[LedUpdate], num_leds: usize) -> (buf: heapless::Vec<
    u8,
    TRANSMISSION_CAP,
>)
    requires
        num_leds <= MAX_LEDS,
    ensures
        buffer_bytes(buf) == strip_transmission(updates@, num_leds as nat),
{
    let ghost n = num_leds as nat;
    // Dense color table: every position starts off.
    let mut colors: Vec<(u16, u16, u16)> = Vec::new();
    let mut i: usize = 0;
    while i < num_leds
        invariant
            i <= num_leds,
            colors@.len() == i,
            forall|k: int| 0 <= k < i ==> colors@[k] == (0u16, 0u16, 0u16),
        decreases num_leds - i,
    {
        colors.push((0u16, 0u16, 0u16));
        i += 1;
    }
    proof {
        assert(updates@.take(0) =~= Seq::<LedUpdate>::empty());
        assert(colors@ =~= color_table(updates@.take(0), n));
    }
    let mut j: usize = 0;
    while j < updates.len()
        invariant
            j <= updates@.len(),
            num_leds <= MAX_LEDS,
            colors@.len() == num_leds,
            colors@ == color_table(updates@.take(j as int), num_leds as nat),
        decreases updates@.len() - j,
    {
        let u = updates[j];
        if u.led_index < num_leds {
            let scaled = ((u.r as u16) * 257, (u.g as u16) * 257, (u.b as u16) * 257);
            vec_set(&mut colors, u.led_index, scaled);
        }
        proof {
            let prefix1 = updates@.take(j + 1 as int);
            assert(prefix1.drop_last() =~= updates@.take(j as int));
            assert(prefix1.last() == updates@[j as int]);
        }
        j += 1;
    }
    proof {
        assert(updates@.take(updates@.len() as int) =~= updates@);
    }
    // Assemble the byte stream: padding, commands, trailing clocks.
    let mut buf = buffer_new();
    let pad: [u8; 16] = [0u8; 16];
    proof {
        assert(pad@ =~= start_padding());
    }
    buffer_extend(&mut buf, pad.as_slice());
    let mut i: usize = 0;
    while i < num_leds
        invariant
            i <= num_leds <= MAX_LEDS,
            colors@.len() == num_leds,
            colors@ == color_table(updates@, num_leds as nat),
            buffer_bytes(buf) == start_padding() + led_block(colors@.take(i as int)),
        decreases num_leds - i,
    {
        proof {
            lemma_led_block_len(colors@.take(i as int));
        }
        let c = colors[i];
        let frame = create_led_frame(c.0, c.1, c.2);
        buffer_extend(&mut buf, frame.as_slice());
        proof {
            let t1 = colors@.take(i + 1 as int);
            assert(t1.drop_last() =~= colors@.take(i as int));
            assert(t1.last() == colors@[i as int]);
            assert(buffer_bytes(buf) =~= start_padding() + led_block(t1));
        }
        i += 1;
    }
    proof {
        assert(colors@.take(colors@.len() as int) =~= colors@);
        lemma_led_block_len(colors@);
    }
    let clock_bytes: usize = (num_leds + 7) / 8;
    let zero: [u8; 1] = [0u8];
    let mut k: usize = 0;
    while k < clock_bytes
        invariant
            k <= clock_bytes,
            clock_bytes == trailing_clock_len(num_leds as nat),
            num_leds <= MAX_LEDS,
            colors@.len() == num_leds,
            colors@ == color_table(updates@, num_leds as nat),
            led_block(colors@).len() == 8 * num_leds,
            zero@ =~= Seq::new(1, |q: int| 0u8),
            buffer_bytes(buf) == start_padding() + led_block(colors@) + Seq::new(
                k as nat,
                |q: int| 0u8,
            ),
        decreases clock_bytes - k,
    {
        buffer_extend(&mut buf, zero.as_slice());
        proof {
            assert(buffer_bytes(buf) =~= start_padding() + led_block(colors@) + Seq::new(
                (k + 1) as nat,
                |q: int| 0u8,
            ));
        }
        k += 1;
    }
    proof {
        assert(Seq::new(clock_bytes as nat, |q: int| 0u8) =~= trailing_clocks(num_leds as nat));
        assert(buffer_bytes(buf) =~= strip_transmission(updates@, num_leds as nat));
    }
    buf
}

/// The HD108 strip driver: exclusive owner of its bus handle. Every call
/// that changes LED state writes one whole transmission, so the strip is
/// updated atomically from the bus's point of view.
pub struct HD108<B: Bus> {
    pub spi: B,
    pub num_leds: usize,
}

impl<B: Bus> HD108<B> {
    /// The strip length fits the transmission buffer.
    pub open spec fn wf(self) -> bool {
        self.num_leds <= MAX_LEDS
    }

    /// A driver for the default 96-LED strip.
    pub fn new(spi: B) -> (h: HD108<B>)
        ensures
            h.spi == spi,
            h.num_leds == MAX_LEDS,
            h.wf(),
    {
        HD108 { spi, num_leds: MAX_LEDS }
    }

    /// A driver for a strip of the given length.
    pub fn with_strip_len(spi: B, num_leds: usize) -> (h: HD108<B>)
        requires
            num_leds <= MAX_LEDS,
        ensures
            h.spi == spi,
            h.num_leds == num_leds,
            h.wf(),
    {
        HD108 { spi, num_leds }
    }

    /// Applies a sparse update list as one atomic transmission: every
    /// position gets a command, untouched positions are commanded off.
    /// On a bus failure nothing counts as transmitted; the caller decides
    /// whether to retry the whole frame.
    pub fn apply_updates(&mut self, updates: &[LedUpdate]) -> (r: Result<(), CustomSpiError>)
        requires
            old(self).wf(),
        ensures
            final(self).num_leds == old(self).num_leds,
            r is Ok ==> final(self).spi.transmissions() == old(self).spi.transmissions().push(
                strip_transmission(updates@, old(self).num_leds as nat),
            ),
            r is Err ==> final(self).spi.transmissions() == old(self).spi.transmissions(),
    {
        let buf = build_transmission(updates, self.num_leds);
        let bytes = buffer_as_slice(&buf);
        self.spi.write(bytes)
    }

    /// Sets one LED to full red and every other LED off.
    pub fn make_red(&mut self, led_num: usize) -> (r: Result<(), CustomSpiError>)
        requires
            old(self).wf(),
        ensures
            final(self).num_leds == old(self).num_leds,
            r is Ok ==> final(self).spi.transmissions() == old(self).spi.transmissions().push(
                strip_transmission(
                    seq![LedUpdate { led_index: led_num, r: 255u8, g: 0u8, b: 0u8 }],
                    old(self).num_leds as nat,
                ),
            ),
            r is Err ==> final(self).spi.transmissions() == old(self).spi.transmissions(),
    {
        let mut updates: Vec<LedUpdate> = Vec::new();
        updates.push(LedUpdate { led_index: led_num, r: 255, g: 0, b: 0 });
        proof {
            assert(updates@ =~= seq![LedUpdate { led_index: led_num, r: 255u8, g: 0u8, b: 0u8 }]);
        }
        self.apply_updates(updates.as_slice())
    }

    /// Sets one LED to the given 8-bit color and every other LED off. Each
    /// channel is widened to 16 bits so that 255 is full intensity.
    pub fn set_led(&mut self, led_num: usize, r: u8, g: u8, b: u8) -> (res: Result<
        (),
        CustomSpiError,
    >)
        requires
            old(self).wf(),
        ensures
            final(self).num_leds == old(self).num_leds,
            res is Ok ==> final(self).spi.transmissions() == old(self).spi.transmissions().push(
                strip_transmission(
                    seq![LedUpdate { led_index: led_num, r, g, b }],
                    old(self).num_leds as nat,
                ),
            ),
            res is Err ==> final(self).spi.transmissions() == old(self).spi.transmissions(),
    {
        let mut updates: Vec<LedUpdate> = Vec::new();
        updates.push(LedUpdate { led_index: led_num, r, g, b });
        proof {
            assert(updates@ =~= seq![LedUpdate { led_index: led_num, r, g, b }]);
        }
        self.apply_updates(updates.as_slice())
    }

    /// Sets the first LED to full red and every other LED to full green.
    pub fn make_red_green(&mut self) -> (r: Result<(), CustomSpiError>)
        requires
            old(self).wf(),
        ensures
            final(self).num_leds == old(self).num_leds,
            r is Ok ==> final(self).spi.transmissions() == old(self).spi.transmissions().push(
                strip_transmission(
                    red_green_updates(old(self).num_leds as nat),
                    old(self).num_leds as nat,
                ),
            ),
            r is Err ==> final(self).spi.transmissions() == old(self).spi.transmissions(),
    {
        let mut updates: Vec<LedUpdate> = Vec::new();
        let mut i: usize = 0;
        while i < self.num_leds
            invariant
                i <= self.num_leds,
                updates@ =~= red_green_updates(self.num_leds as nat).take(i as int),
            decreases self.num_leds - i,
        {
            if i == 0 {
                updates.push(LedUpdate { led_index: 0, r: 255, g: 0, b: 0 });
            } else {
                updates.push(LedUpdate { led_index: i, r: 0, g: 255, b: 0 });
            }
            i += 1;
        }
        proof {
            assert(updates@ =~= red_green_updates(self.num_leds as nat));
        }
        self.apply_updates(updates.as_slice())
    }

    /// Commands every LED off, as one atomic transmission.
    pub fn set_off(&mut self) -> (r: Result<(), CustomSpiError>)
        requires
            old(self).wf(),
        ensures
            final(self).num_leds == old(self).num_leds,
            r is Ok ==> final(self).spi.transmissions() == old(self).spi.transmissions().push(
                off_transmission(old(self).num_leds as nat),
            ),
            r is Err ==> final(self).spi.transmissions() == old(self).spi.transmissions(),
    {
        let no_updates: Vec<LedUpdate> = Vec::new();
        proof {
            assert(no_updates@ =~= Seq::<LedUpdate>::empty());
        }
        self.apply_updates(no_updates.as_slice())
    }
}

/// The update list that paints the first LED full red and the rest full
/// green.
pub open spec fn red_green_updates(n: nat) -> Seq<LedUpdate> {
    Seq::new(
        n,
        |i: int|
            if i == 0 {
                LedUpdate { led_index: 0, r: 255u8, g: 0u8, b: 0u8 }
            } else {
                LedUpdate { led_index: i as usize, r: 0u8, g: 255u8, b: 0u8 }
            },
    )
}

/// Law: turning the strip off is idempotent on the bus: two consecutive
/// off commands append two byte-for-byte identical transmissions, whatever
/// was transmitted before.
pub proof fn lemma_set_off_idempotent(before: Seq<Seq<u8>>, n: nat)
    ensures
        ({
            let once = before.push(off_transmission(n));
            let twice = once.push(off_transmission(n));
            twice[twice.len() - 1] == twice[twice.len() - 2]
        }),
{
}

} // verus!

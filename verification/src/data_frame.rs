//! Telemetry update frames: one frame records, for one instant, which LED
//! position each driver occupies. Frames are also read from and written to
//! a fixed-size binary form, so a whole visualization can be carried as
//! one byte stream.

use vstd::prelude::*;

verus! {

/// Number of driver slots in every update frame.
pub const NUM_DRIVERS: usize = 20;

/// Bytes of one serialized frame: 20 slots of 9 bytes each (a presence
/// tag, then driver number and LED position as big-endian 32-bit values).
pub const FRAME_SERIALIZED_SIZE: usize = 180;

/// One driver's position at one instant: the driver's racing number and
/// the LED it occupies.
#[derive(Clone, Copy, Debug, PartialEq, Eq, Structural)]
pub struct DriverData {
    pub driver_number: u32,
    pub led_num: u32,
}

/// A telemetry snapshot: up to twenty (driver, LED position) pairs.
#[derive(Clone, Copy, Debug, PartialEq, Eq)]
pub struct UpdateFrame {
    pub drivers: [Option<DriverData>; 20],
}

/// A full visualization: the frames to play, in order, and the fixed
/// delay between consecutive frames.
#[derive(Clone, Debug)]
pub struct VisualizationData {
    pub update_rate_ms: u32,
    pub frames: Vec<UpdateFrame>,
}

/// Parse failures for the binary frame form.
#[derive(Clone, Copy, Debug, PartialEq, Eq, Structural)]
pub enum FrameParseError {
    /// Fewer bytes than one whole frame.
    TooShort,
    /// A slot began with a byte that is neither 0 nor 1.
    BadSlotTag,
}

/// A 32-bit value as four big-endian bytes.
pub open spec fn be32_bytes(v: u32) -> Seq<u8> {
    seq![
        (v / 0x1000000) as u8,
        ((v / 0x10000) % 256) as u8,
        ((v / 256) % 256) as u8,
        (v % 256) as u8,
    ]
}

/// The 32-bit value of four big-endian bytes.
pub open spec fn be32_value(b: Seq<u8>) -> u32
    recommends
        b.len() == 4,
{
    (b[0] * 0x1000000 + b[1] * 0x10000 + b[2] * 256 + b[3]) as u32
}

/// The 9 serialized bytes of one slot: tag 0 and zeros for an empty slot,
/// tag 1 and the two big-endian values for an occupied one.
pub open spec fn slot_bytes(slot: Option<DriverData>) -> Seq<u8> {
    match slot {
        None => seq![0u8, 0u8, 0u8, 0u8, 0u8, 0u8, 0u8, 0u8, 0u8],
        Some(d) => seq![1u8] + be32_bytes(d.driver_number) + be32_bytes(d.led_num),
    }
}

/// The slot encoded by 9 bytes whose tag is 0 or 1.
pub open spec fn slot_of_bytes(b: Seq<u8>) -> Option<DriverData>
    recommends
        b.len() == 9,
        b[0] == 0 || b[0] == 1,
{
    if b[0] == 0 {
        None
    } else {
        Some(
            DriverData {
                driver_number: be32_value(b.subrange(1, 5)),
                led_num: be32_value(b.subrange(5, 9)),
            },
        )
    }
}

/// The concatenated serialized slots, in order.
pub open spec fn slots_bytes(slots: Seq<Option<DriverData>>) -> Seq<u8>
    decreases slots.len(),
{
    if slots.len() == 0 {
        Seq::<u8>::empty()
    } else {
        slots_bytes(slots.drop_last()) + slot_bytes(slots.last())
    }
}

/// The serialized form of a whole frame.
pub open spec fn frame_bytes(f: UpdateFrame) -> Seq<u8> {
    slots_bytes(f.drivers@)
}

/// The bytes begin with one well-formed frame: long enough, and every
/// slot tag is 0 or 1.
pub open spec fn valid_frame_bytes(b: Seq<u8>) -> bool {
    &&& b.len() >= FRAME_SERIALIZED_SIZE
    &&& forall|i: int| 0 <= i < NUM_DRIVERS ==> #[trigger] b[9 * i] == 0 || b[9 * i] == 1
}

/// The slots encoded by the first whole frame of the bytes.
pub open spec fn parsed_slots(b: Seq<u8>) -> Seq<Option<DriverData>> {
    Seq::new(NUM_DRIVERS as nat, |i: int| slot_of_bytes(b.subrange(9 * i, 9 * i + 9)))
}

impl UpdateFrame {
    /// A frame with every slot empty.
    pub fn new() -> (f: UpdateFrame)
        ensures
            f.drivers@ == Seq::new(NUM_DRIVERS as nat, |i: int| None::<DriverData>),
    {
        let f = UpdateFrame {
            drivers: [
                None, None, None, None, None, None, None, None, None, None,
                None, None, None, None, None, None, None, None, None, None,
            ],
        };
        proof {
            assert(f.drivers@ =~= Seq::new(NUM_DRIVERS as nat, |i: int| None::<DriverData>));
        }
        f
    }

    /// Fills one slot.
    pub fn set_driver(&mut self, slot: usize, data: DriverData)
        requires
            slot < NUM_DRIVERS,
        ensures
            final(self).drivers@ == old(self).drivers@.update(slot as int, Some(data)),
    {
        self.drivers[slot] = Some(data);
    }

    /// Serializes the frame to its fixed-size binary form.
    pub fn to_bytes(&self) -> (out: Vec<u8>)
        ensures
            out@ == frame_bytes(*self),
            out@.len() == FRAME_SERIALIZED_SIZE,
    {
        let mut out: Vec<u8> = Vec::new();
        proof {
            assert(self.drivers@.take(0) =~= Seq::<Option<DriverData>>::empty());
        }
        let mut i: usize = 0;
        while i < NUM_DRIVERS
            invariant
                i <= NUM_DRIVERS,
                self.drivers@.len() == NUM_DRIVERS,
                out@ == slots_bytes(self.drivers@.take(i as int)),
                out@.len() == 9 * i,
            decreases NUM_DRIVERS - i,
        {
            match self.drivers[i] {
                None => {
                    let mut k: usize = 0;
                    while k < 9
                        invariant
                            k <= 9,
                            out@ == slots_bytes(self.drivers@.take(i as int)) + Seq::new(
                                k as nat,
                                |q: int| 0u8,
                            ),
                        decreases 9 - k,
                    {
                        out.push(0u8);
                        proof {
                            assert(out@ =~= slots_bytes(self.drivers@.take(i as int)) + Seq::new(
                                (k + 1) as nat,
                                |q: int| 0u8,
                            ));
                        }
                        k += 1;
                    }
                    proof {
                        assert(Seq::new(9, |q: int| 0u8) =~= slot_bytes(None::<DriverData>));
                    }
                },
                Some(d) => {
                    out.push(1u8);
                    push_be32(&mut out, d.driver_number);
                    push_be32(&mut out, d.led_num);
                },
            }
            proof {
                let t1 = self.drivers@.take(i + 1 as int);
                assert(t1.drop_last() =~= self.drivers@.take(i as int));
                assert(t1.last() == self.drivers@[i as int]);
                assert(out@ =~= slots_bytes(t1));
            }
            i += 1;
        }
        proof {
            assert(self.drivers@.take(NUM_DRIVERS as int) =~= self.drivers@);
        }
        out
    }

    /// Reads one frame from the front of a byte stream. Fails exactly when
    /// fewer than one whole frame of bytes remains, or when a slot begins
    /// with a tag other than 0 or 1; bytes past the first frame are
    /// ignored.
    pub fn try_from_bytes(bytes: &[u8]) -> (r: Result<UpdateFrame, FrameParseError>)
        ensures
            r is Ok <==> valid_frame_bytes(bytes@),
            r is Ok ==> r.unwrap().drivers@ == parsed_slots(bytes@),
            bytes@.len() < FRAME_SERIALIZED_SIZE ==> r == Err::<UpdateFrame, FrameParseError>(
                FrameParseError::TooShort,
            ),
            r is Err && bytes@.len() >= FRAME_SERIALIZED_SIZE ==> r == Err::<
                UpdateFrame,
                FrameParseError,
            >(FrameParseError::BadSlotTag),
    {
        if bytes.len() < FRAME_SERIALIZED_SIZE {
            return Err(FrameParseError::TooShort);
        }
        let mut frame = UpdateFrame::new();
        let mut i: usize = 0;
        while i < NUM_DRIVERS
            invariant
                i <= NUM_DRIVERS,
                bytes@.len() >= FRAME_SERIALIZED_SIZE,
                frame.drivers@.len() == NUM_DRIVERS,
                forall|k: int|
                    0 <= k < i ==> (#[trigger] bytes@[9 * k] == 0 || bytes@[9 * k] == 1)
                        && frame.drivers@[k] == slot_of_bytes(bytes@.subrange(9 * k, 9 * k + 9)),
                forall|k: int| i <= k < NUM_DRIVERS ==> frame.drivers@[k] is None,
            decreases NUM_DRIVERS - i,
        {
            let base: usize = 9 * i;
            let tag = bytes[base];
            if tag == 1 {
                let driver_number = read_be32(bytes, base + 1);
                let led_num = read_be32(bytes, base + 5);
                frame.set_driver(i, DriverData { driver_number, led_num });
                proof {
                    let seg = bytes@.subrange(9 * i as int, 9 * i + 9);
                    assert(seg[0] == bytes@[9 * i as int]);
                    assert(seg.subrange(1, 5) =~= bytes@.subrange(base + 1, base + 5));
                    assert(seg.subrange(5, 9) =~= bytes@.subrange(base + 5, base + 9));
                    assert(frame.drivers@[i as int] == slot_of_bytes(seg));
                }
            } else if tag != 0 {
                proof {
                    assert(bytes@[9 * i as int] == tag);
                    assert(!valid_frame_bytes(bytes@));
                }
                return Err(FrameParseError::BadSlotTag);
            } else {
                proof {
                    let seg = bytes@.subrange(9 * i as int, 9 * i + 9);
                    assert(seg[0] == bytes@[9 * i as int]);
                    assert(frame.drivers@[i as int] == slot_of_bytes(seg));
                }
            }
            proof {
                assert(bytes@[9 * i as int] == 0 || bytes@[9 * i as int] == 1);
            }
            i += 1;
        }
        proof {
            assert(valid_frame_bytes(bytes@));
            assert(frame.drivers@ =~= parsed_slots(bytes@));
        }
        Ok(frame)
    }
}

/// The i-th whole frame of a byte stream.
pub open spec fn frame_chunk(b: Seq<u8>, i: int) -> Seq<u8> {
    b.subrange(FRAME_SERIALIZED_SIZE * i, FRAME_SERIALIZED_SIZE * (i + 1))
}

/// Parses a byte stream that carries consecutive serialized frames and
/// nothing else. Fails with `BadSlotTag` when some whole frame is
/// malformed, and with `TooShort` when a partial frame trails the stream.
pub fn parse_all_frames(bytes: &[u8]) -> (r: Result<Vec<UpdateFrame>, FrameParseError>)
    ensures
        ({
            let m = bytes@.len() as int / FRAME_SERIALIZED_SIZE as int;
            match r {
                Ok(frames) => {
                    &&& bytes@.len() as int % FRAME_SERIALIZED_SIZE as int == 0
                    &&& frames@.len() == m
                    &&& forall|i: int|
                        0 <= i < m ==> valid_frame_bytes(#[trigger] frame_chunk(bytes@, i))
                            && frames@[i].drivers@ == parsed_slots(frame_chunk(bytes@, i))
                },
                Err(FrameParseError::BadSlotTag) => exists|i: int|
                    0 <= i < m && !valid_frame_bytes(#[trigger] frame_chunk(bytes@, i)),
                Err(FrameParseError::TooShort) => {
                    &&& bytes@.len() as int % FRAME_SERIALIZED_SIZE as int != 0
                    &&& forall|i: int|
                        0 <= i < m ==> valid_frame_bytes(#[trigger] frame_chunk(bytes@, i))
                },
            }
        }),
{
    let total = bytes.len();
    let mut frames: Vec<UpdateFrame> = Vec::new();
    let mut offset: usize = 0;
    while total - offset >= FRAME_SERIALIZED_SIZE
        invariant
            total == bytes@.len(),
            offset <= total,
            offset == FRAME_SERIALIZED_SIZE * frames@.len(),
            forall|i: int|
                0 <= i < frames@.len() ==> valid_frame_bytes(#[trigger] frame_chunk(bytes@, i))
                    && frames@[i].drivers@ == parsed_slots(frame_chunk(bytes@, i)),
        decreases total - offset,
    {
        let chunk = vstd::slice::slice_subrange(bytes, offset, offset + FRAME_SERIALIZED_SIZE);
        match UpdateFrame::try_from_bytes(chunk) {
            Ok(frame) => {
                proof {
                    assert(chunk@ =~= frame_chunk(bytes@, frames@.len() as int));
                }
                frames.push(frame);
            },
            Err(_) => {
                proof {
                    assert(chunk@ =~= frame_chunk(bytes@, frames@.len() as int));
                }
                return Err(FrameParseError::BadSlotTag);
            },
        }
        offset += FRAME_SERIALIZED_SIZE;
    }
    proof {
        let m = bytes@.len() as int / FRAME_SERIALIZED_SIZE as int;
        assert(bytes@.len() == FRAME_SERIALIZED_SIZE * frames@.len() + (bytes@.len()
            - offset as int));
        assert(m == frames@.len() && bytes@.len() as int % FRAME_SERIALIZED_SIZE as int == (bytes@.len()
            - offset as int)) by (nonlinear_arith)
            requires
                offset == FRAME_SERIALIZED_SIZE * frames@.len(),
                0 <= bytes@.len() - offset < FRAME_SERIALIZED_SIZE,
                m == bytes@.len() as int / FRAME_SERIALIZED_SIZE as int,
                FRAME_SERIALIZED_SIZE == 180,
        ;
    }
    if offset < total {
        return Err(FrameParseError::TooShort);
    }
    Ok(frames)
}

/// Serialized slots take 9 bytes each.
pub proof fn lemma_slots_bytes_len(slots: Seq<Option<DriverData>>)
    ensures
        slots_bytes(slots).len() == 9 * slots.len(),
    decreases slots.len(),
{
    if slots.len() > 0 {
        lemma_slots_bytes_len(slots.drop_last());
    }
}

/// Within serialized slots, slot i occupies bytes 9i..9i+9.
pub proof fn lemma_slots_bytes_segment(slots: Seq<Option<DriverData>>, i: int)
    requires
        0 <= i < slots.len(),
    ensures
        slots_bytes(slots).subrange(9 * i, 9 * i + 9) == slot_bytes(slots[i]),
    decreases slots.len(),
{
    lemma_slots_bytes_len(slots);
    if i == slots.len() - 1 {
        lemma_slots_bytes_len(slots.drop_last());
        assert(slots_bytes(slots).subrange(9 * i, 9 * i + 9) =~= slot_bytes(slots[i]));
    } else {
        lemma_slots_bytes_segment(slots.drop_last(), i);
        lemma_slots_bytes_len(slots.drop_last());
        assert(slots_bytes(slots).subrange(9 * i, 9 * i + 9) =~= slots_bytes(
            slots.drop_last(),
        ).subrange(9 * i, 9 * i + 9));
    }
}

/// Law: four big-endian bytes decode back to the value they encode.
pub proof fn lemma_be32_round_trip(v: u32)
    ensures
        be32_value(be32_bytes(v)) == v,
{
    assert(((v / 0x1000000) as u8) * 0x1000000 + (((v / 0x10000) % 256) as u8) * 0x10000 + (((v
        / 256) % 256) as u8) * 256 + ((v % 256) as u8) == v) by (bit_vector);
}

/// Law: a serialized slot is 9 bytes, carries a valid tag, and decodes
/// back to the slot it encodes.
pub proof fn lemma_slot_round_trip(slot: Option<DriverData>)
    ensures
        slot_bytes(slot).len() == 9,
        slot_bytes(slot)[0] == 0 || slot_bytes(slot)[0] == 1,
        slot_of_bytes(slot_bytes(slot)) == slot,
{
    match slot {
        None => {},
        Some(d) => {
            lemma_be32_round_trip(d.driver_number);
            lemma_be32_round_trip(d.led_num);
            assert(slot_bytes(slot).subrange(1, 5) =~= be32_bytes(d.driver_number));
            assert(slot_bytes(slot).subrange(5, 9) =~= be32_bytes(d.led_num));
        },
    }
}

/// Law: serializing a frame and reading it back yields the frame: the
/// bytes are well formed and parse to the same slots.
pub proof fn lemma_frame_serialization_round_trip(f: UpdateFrame)
    ensures
        frame_bytes(f).len() == FRAME_SERIALIZED_SIZE,
        valid_frame_bytes(frame_bytes(f)),
        parsed_slots(frame_bytes(f)) == f.drivers@,
{
    let b = frame_bytes(f);
    lemma_slots_bytes_len(f.drivers@);
    assert forall|i: int| 0 <= i < NUM_DRIVERS implies #[trigger] b[9 * i] == 0 || b[9 * i]
        == 1 by {
        lemma_slots_bytes_segment(f.drivers@, i);
        lemma_slot_round_trip(f.drivers@[i]);
        assert(b[9 * i] == b.subrange(9 * i, 9 * i + 9)[0]);
    }
    assert forall|i: int| 0 <= i < NUM_DRIVERS implies #[trigger] parsed_slots(b)[i]
        == f.drivers@[i] by {
        lemma_slots_bytes_segment(f.drivers@, i);
        lemma_slot_round_trip(f.drivers@[i]);
    }
    assert(parsed_slots(b) =~= f.drivers@);
}

/// Appends the four big-endian bytes of a 32-bit value.
fn push_be32(out: &mut Vec<u8>, v: u32)
    ensures
        final(out)@ == old(out)@ + be32_bytes(v),
{
    out.push((v / 0x1000000) as u8);
    out.push(((v / 0x10000) % 256) as u8);
    out.push(((v / 256) % 256) as u8);
    out.push((v % 256) as u8);
    proof {
        assert(out@ =~= old(out)@ + be32_bytes(v));
    }
}

/// Reads the big-endian 32-bit value at the given offset.
fn read_be32(bytes: &[u8], at: usize) -> (v: u32)
    requires
        at + 4 <= bytes@.len(),
    ensures
        v == be32_value(bytes@.subrange(at as int, at + 4)),
{
    let v = (bytes[at] as u32) * 0x1000000 + (bytes[at + 1] as u32) * 0x10000 + (bytes[at + 2]
        as u32) * 256 + (bytes[at + 3] as u32);
    proof {
        let seg = bytes@.subrange(at as int, at + 4);
        assert(seg[0] == bytes@[at as int]);
        assert(seg[1] == bytes@[at + 1]);
        assert(seg[2] == bytes@[at + 2]);
        assert(seg[3] == bytes@[at + 3]);
    }
    v
}

} // verus!

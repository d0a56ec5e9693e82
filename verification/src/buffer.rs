//! Trusted interface to the fixed-capacity byte buffer that carries one
//! complete strip transmission to the bus.
//!
//! The buffer is a `heapless::Vec`, the allocation-free vector used on the
//! firmware target. Verus does not read its implementation; the wrappers
//! below state what the calls do over `buffer_bytes`, the buffer's
//! contents seen as a byte sequence.

use vstd::prelude::*;

verus! {

/// Capacity of the transmission buffer: 16 bytes of start padding, 96 LED
/// commands of 8 bytes each, and 12 trailing clock bytes.
pub const TRANSMISSION_CAP: usize = 796;

#[verifier::external_type_specification]
#[verifier::external_body]
#[verifier::reject_recursive_types(T)]
pub struct ExHeaplessVec<T, const N: usize>(heapless::Vec<T, N>);

/// The bytes a transmission buffer holds, in order.
pub uninterp spec fn buffer_bytes(buf: heapless::Vec<u8, TRANSMISSION_CAP>) -> Seq<u8>;

/// Relies on heapless::Vec::new: a freshly constructed vector is empty.
#[verifier::external_body]
pub(crate) fn buffer_new() -> (buf: heapless::Vec<u8, TRANSMISSION_CAP>)
    ensures
        buffer_bytes(buf) == Seq::<u8>::empty(),
{
    heapless::Vec::new()
}

/// Relies on heapless::Vec::extend_from_slice: when the added bytes fit in
/// the capacity, they are appended in order.
#[verifier::external_body]
pub(crate) fn buffer_extend(buf: &mut heapless::Vec<u8, TRANSMISSION_CAP>, bytes: &[u8])
    requires
        buffer_bytes(*old(buf)).len() + bytes@.len() <= TRANSMISSION_CAP,
    ensures
        buffer_bytes(*final(buf)) == buffer_bytes(*old(buf)) + bytes@,
{
    let _ = buf.extend_from_slice(bytes);
}

/// Relies on heapless::Vec::as_slice: the slice is exactly the vector's
/// contents.
#[verifier::external_body]
pub(crate) fn buffer_as_slice(buf: &heapless::Vec<u8, TRANSMISSION_CAP>) -> (bytes: &[u8])
    ensures
        bytes@ == buffer_bytes(*buf),
{
    buf.as_slice()
}

} // verus!

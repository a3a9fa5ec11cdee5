//! The counter of the bytes that cached objects hold.

use vstd::prelude::*;

verus! {

/// The number of bytes that the objects allocated for the cache hold.
///
/// One counter serves the whole process. It counts modulo 2^64, as an atomic
/// integer does, and guides eviction; nothing synchronizes on it.
pub struct Usage {
    bytes: u64,
}

impl View for Usage {
    type V = u64;

    closed spec fn view(&self) -> u64 {
        self.bytes
    }
}

impl Usage {
    /// A counter at 0.
    pub fn new() -> (counter: Self)
        ensures
            counter@ == 0,
    {
        Usage { bytes: 0 }
    }
}

/// The number of bytes in use.
pub fn usage(counter: &Usage) -> (bytes: u64)
    ensures
        bytes == counter@,
{
    counter.bytes
}

/// Counts `byte_size` more bytes, and returns the new count.
pub fn add_usage(counter: &mut Usage, byte_size: u64) -> (bytes: u64)
    ensures
        final(counter)@ == old(counter)@.wrapping_add(byte_size),
        bytes == final(counter)@,
{
    counter.bytes = counter.bytes.wrapping_add(byte_size);
    counter.bytes
}

/// Counts `byte_size` bytes fewer, and returns the new count.
pub fn sub_usage(counter: &mut Usage, byte_size: u64) -> (bytes: u64)
    ensures
        final(counter)@ == old(counter)@.wrapping_sub(byte_size),
        bytes == final(counter)@,
{
    counter.bytes = counter.bytes.wrapping_sub(byte_size);
    counter.bytes
}

/// Taking away what was added brings the count back.
pub proof fn lemma_add_then_sub(bytes: u64, byte_size: u64)
    ensures
        bytes.wrapping_add(byte_size).wrapping_sub(byte_size) == bytes,
        bytes.wrapping_sub(byte_size).wrapping_add(byte_size) == bytes,
{
}

} // verus!

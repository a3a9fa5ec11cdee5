//! The accounting of an allocator that counts what it hands out.

use super::usage::{add_usage, sub_usage, Usage};
use vstd::prelude::*;

verus! {

/// The accounting side of an allocator that behaves like the system
/// allocator and keeps `Usage` up to date.
///
/// The allocator reports each block that the system hands out or takes back,
/// with the size that the system really uses for it, which may be more than
/// what was asked for.
#[derive(Debug, Clone, Copy)]
pub struct CacheAlloc;

impl CacheAlloc {
    /// Creates the allocator.
    pub fn new() -> (allocator: Self) {
        CacheAlloc
    }

    /// Accounts for an allocation. `block_size` is the size of the block that
    /// the system returned, or `None` where it returned a null pointer.
    pub fn account_alloc(&self, block_size: Option<u64>, counter: &mut Usage)
        ensures
            final(counter)@ == match block_size {
                Some(size) => old(counter)@.wrapping_add(size),
                None => old(counter)@,
            },
    {
        match block_size {
            Some(size) => {
                add_usage(counter, size);
            },
            None => {},
        }
    }

    /// Accounts for the release of a block. `block_size` is the size of the
    /// block that goes back to the system, or `None` for a null pointer.
    pub fn account_dealloc(&self, block_size: Option<u64>, counter: &mut Usage)
        ensures
            final(counter)@ == match block_size {
                Some(size) => old(counter)@.wrapping_sub(size),
                None => old(counter)@,
            },
    {
        match block_size {
            Some(size) => {
                sub_usage(counter, size);
            },
            None => {},
        }
    }
}

impl Default for CacheAlloc {
    fn default() -> (allocator: Self) {
        CacheAlloc
    }
}

} // verus!

//! The bucket of a reference counted cell of the cache.

use super::usage::{add_usage, sub_usage, Usage};
use vstd::prelude::*;

verus! {

/// The bucket behind the handles of a cache cell: the payload, the number of
/// handles that refer to it, and the bytes that are accounted for it.
///
/// The payload lives exactly as long as a handle exists. When the last handle
/// goes, the payload is destroyed and its bytes are taken off the counter.
pub struct Crc<T> {
    rc: usize,
    size: u64,
    elm: Option<T>,
}

impl<T> Crc<T> {
    /// The number of handles.
    pub closed spec fn count(&self) -> nat {
        self.rc as nat
    }

    /// The bytes accounted for the bucket.
    pub closed spec fn byte_size(&self) -> u64 {
        self.size
    }

    /// The payload, while it lives.
    pub closed spec fn payload(&self) -> Option<T> {
        self.elm
    }

    /// The payload lives exactly while a handle exists.
    pub closed spec fn wf(&self) -> bool {
        self.elm is Some <==> self.rc >= 1
    }

    /// Allocates the bucket of `elm`, of `size` bytes, with one handle.
    pub fn new(elm: T, size: u64, counter: &mut Usage) -> (crc: Self)
        ensures
            crc.wf(),
            crc.count() == 1,
            crc.byte_size() == size,
            crc.payload() == Some(elm),
            final(counter)@ == old(counter)@.wrapping_add(size),
    {
        add_usage(counter, size);
        Crc { rc: 1, size, elm: Some(elm) }
    }

    /// The number of handles.
    pub fn strong_count(&self) -> (n: usize)
        ensures
            n == self.count(),
    {
        self.rc
    }

    /// Makes one more handle. It returns `false`, and makes none, where the
    /// payload is gone or the count cannot grow.
    pub fn acquire(&mut self) -> (made: bool)
        requires
            old(self).wf(),
        ensures
            final(self).wf(),
            made == (1 <= old(self).count() < usize::MAX),
            final(self).count() == old(self).count() + if made { 1nat } else { 0nat },
            final(self).payload() == old(self).payload(),
            final(self).byte_size() == old(self).byte_size(),
    {
        if 1 <= self.rc && self.rc < usize::MAX {
            self.rc = self.rc + 1;
            true
        } else {
            false
        }
    }

    /// Drops one handle. With the last handle the payload goes, and the
    /// bytes of the bucket are taken off the counter; the payload is handed
    /// out to be destroyed.
    pub fn release(&mut self, counter: &mut Usage) -> (last: Option<T>)
        requires
            old(self).wf(),
            old(self).count() >= 1,
        ensures
            final(self).wf(),
            final(self).count() == old(self).count() - 1,
            final(self).byte_size() == old(self).byte_size(),
            last is Some <==> final(self).count() == 0,
            final(self).count() == 0 ==> last == old(self).payload() && final(self).payload() is None
                && final(counter)@ == old(counter)@.wrapping_sub(old(self).byte_size()),
            final(self).count() >= 1 ==> final(self).payload() == old(self).payload()
                && final(counter)@ == old(counter)@,
    {
        self.rc = self.rc - 1;
        if self.rc == 0 {
            sub_usage(counter, self.size);
            self.elm.take()
        } else {
            None
        }
    }

    /// The payload, while a handle exists.
    pub fn downcast(&self) -> (r: Option<&T>)
        requires
            self.wf(),
        ensures
            r is Some <==> self.count() >= 1,
            r is Some ==> Some(*r->Some_0) == self.payload(),
    {
        self.elm.as_ref()
    }
}

} // verus!

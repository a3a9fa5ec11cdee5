//! The cache: the records used most recently, bounded by the bytes they hold.
//!
//! The cache notes for an id either the record or that the store has no
//! record. Whenever an entry is added, the entries used least recently are
//! evicted until the bytes in use are within the soft limit.

pub mod allocator;
pub mod crc;
pub mod links;
pub mod lru;
pub mod usage;

pub use allocator::CacheAlloc;
pub use crc::Crc;
pub use lru::{LruHashSet, Slot};
pub use usage::{add_usage, sub_usage, usage, Usage};

use crate::data_types::{Acid, Id};
use lru::{cached, evicted, moved_to_mru, slot_index, slot_wf, slots_wf, touched};
use vstd::prelude::*;

verus! {

/// The soft limit of a cache that was given none: 64 MiB.
pub const DEFAULT_SIZE_SOFT_LIMIT: u64 = 67108864;

/// The bytes accounted for the note that no record was found: a count of
/// handles and an id.
pub const NOT_FOUND_BYTE_SIZE: u64 = 40;

/// The bytes of a `spin_sync::Mutex8`, the lock that a group of 8 chains is
/// sized with.
pub const LOCK_BYTE_SIZE: usize = 1;

/// The bytes that the index is sized with for a group of 8 chains: 8
/// pointers and one lock.
pub open spec fn spec_bucket_group_byte_size() -> int {
    8 * (usize::BITS / 8) + LOCK_BYTE_SIZE
}

/// The number of chains of the index for the soft limit `size_soft_limit`.
/// About 1/128 of the limit goes to the chains; one more chain keeps the
/// number from being round, and above 0.
pub open spec fn spec_chain_len(size_soft_limit: u64) -> int {
    size_soft_limit / 128 * 8 / spec_bucket_group_byte_size() + 1
}

/// The size of `spin_sync::Mutex8` as `core::mem::size_of` gives it. The
/// type wraps one `AtomicU8` and nothing else, so it takes one byte.
#[verifier::external_body]
fn lock_byte_size() -> (n: usize)
    ensures
        n == LOCK_BYTE_SIZE,
{
    core::mem::size_of::<spin_sync::Mutex8>()
}

/// The number of chains of the index for the soft limit `size_soft_limit`.
pub fn chain_len(size_soft_limit: u64) -> (n: u64)
    ensures
        n == spec_chain_len(size_soft_limit),
        n >= 1,
{
    let pointer_byte_size = (usize::BITS / 8) as u64;
    let group_byte_size = 8 * pointer_byte_size + lock_byte_size() as u64;
    size_soft_limit / 128 * 8 / group_byte_size + 1
}

/// The number of chains of the index of a cache with the soft limit
/// `size_soft_limit`: the number that the limit asks for, as far as the
/// machine can count.
pub open spec fn spec_index_len(size_soft_limit: u64) -> nat {
    if spec_chain_len(size_soft_limit) <= usize::MAX {
        spec_chain_len(size_soft_limit) as nat
    } else {
        usize::MAX as nat
    }
}

/// The state of the cache: its limit and its entries.
pub struct Environment<A> {
    size_soft_limit: u64,
    cache: LruHashSet<A>,
}

/// What `find` found.
pub enum CacheFindResult<'a, A> {
    /// The record is cached.
    Hit(&'a A),
    /// The cache knows nothing about the id.
    Lost,
    /// The cache has noted that the store has no record under the id.
    Fault,
}

/// What `is_cached` found.
#[derive(Debug, Clone, Copy, PartialEq, Eq, Structural)]
pub enum CacheState {
    /// The record is cached.
    Cached,
    /// The cache knows nothing about the id.
    Lost,
    /// The cache has noted that the store has no record under the id.
    Fault,
}

/// How the entries answer a question about `id`.
pub open spec fn state_of<A>(slots: Seq<Slot<A>>, id: Id) -> CacheState {
    if !cached(slots, id) {
        CacheState::Lost
    } else if slots[slot_index(slots, id)].acid is None {
        CacheState::Fault
    } else {
        CacheState::Cached
    }
}

/// The entries and the bytes in use once `val`, accounted with `byte_size`
/// bytes, has been stored, before any eviction. A new record is added. A
/// record takes the place of the note that none was found. A record that is
/// cached already takes in what `val` knows, and `val` is dropped. The entry
/// is the most recently used one in each case.
pub open spec fn stored<A: Acid>(slots: Seq<Slot<A>>, bytes: u64, val: A, byte_size: u64) -> (
    Seq<Slot<A>>,
    u64,
) {
    let id = val.spec_id();
    if !cached(slots, id) {
        (slots.push(Slot { id, byte_size, acid: Some(val) }), bytes.wrapping_add(byte_size))
    } else {
        let j = slot_index(slots, id);
        match slots[j].acid {
            None => (
                moved_to_mru(slots, j, Slot { id, byte_size, acid: Some(val) }),
                bytes.wrapping_sub(slots[j].byte_size).wrapping_add(byte_size),
            ),
            Some(held) => (
                moved_to_mru(
                    slots,
                    j,
                    Slot { id, byte_size: slots[j].byte_size, acid: Some(held.spec_merge(&val)) },
                ),
                bytes,
            ),
        }
    }
}

/// The entries and the bytes in use once it has been noted that the store
/// has no record under `id`, before any eviction. An id that has an entry
/// keeps it, and keeps its place.
pub open spec fn noted<A>(slots: Seq<Slot<A>>, bytes: u64, id: Id) -> (Seq<Slot<A>>, u64) {
    if cached(slots, id) {
        (slots, bytes)
    } else {
        (
            slots.push(Slot { id, byte_size: NOT_FOUND_BYTE_SIZE, acid: None }),
            bytes.wrapping_add(NOT_FOUND_BYTE_SIZE),
        )
    }
}

/// Using an entry changes the order of the entries and nothing else: the
/// ids that have an entry, and what stands under each, stay as they are.
pub proof fn lemma_touched_keeps_entries<A: Acid>(slots: Seq<Slot<A>>, id: Id, other: Id)
    requires
        slots_wf(slots),
    ensures
        slots_wf(touched(slots, id)),
        touched(slots, id).len() == slots.len(),
        cached(touched(slots, id), other) == cached(slots, other),
        cached(slots, other) ==> touched(slots, id)[slot_index(touched(slots, id), other)]
            == slots[slot_index(slots, other)],
        state_of(touched(slots, id), other) == state_of(slots, other),
        cached(slots, id) ==> touched(slots, id).last() == slots[slot_index(slots, id)],
{
    if cached(slots, id) {
        let j = slot_index(slots, id);
        let after = touched(slots, id);
        let last = slots.len() - 1;
        lru::lemma_moved_to_mru_wf(slots, j, slots[j]);
        if cached(slots, other) {
            let i = slot_index(slots, other);
            let i2 = if i == j { last } else if i < j { i } else { i - 1 };
            assert(after[i2] == slots[i]);
            lru::lemma_slot_index(after, i2);
        }
        if cached(after, other) {
            let i2 = slot_index(after, other);
            let i = if i2 == last { j } else if i2 < j { i2 } else { i2 + 1 };
            assert(after[i2] == slots[i]);
            lru::lemma_slot_index(slots, i);
        }
    }
}

/// A record that has been stored is cached, as the most recently used entry,
/// before anything is evicted.
pub proof fn lemma_stored_is_cached<A: Acid>(
    slots: Seq<Slot<A>>,
    bytes: u64,
    val: A,
    byte_size: u64,
)
    requires
        slots_wf(slots),
        val.wf(),
    ensures
        slots_wf(stored(slots, bytes, val, byte_size).0),
        state_of(stored(slots, bytes, val, byte_size).0, val.spec_id()) == CacheState::Cached,
        stored(slots, bytes, val, byte_size).0.last().id == val.spec_id(),
        stored(slots, bytes, val, byte_size).0.len() == slots.len() + if cached(
            slots,
            val.spec_id(),
        ) {
            0int
        } else {
            1int
        },
{
    let id = val.spec_id();
    let after = stored(slots, bytes, val, byte_size).0;
    if !cached(slots, id) {
        lru::lemma_push_wf(slots, Slot { id, byte_size, acid: Some(val) });
    } else {
        let j = slot_index(slots, id);
        match slots[j].acid {
            None => {
                lru::lemma_moved_to_mru_wf(slots, j, Slot { id, byte_size, acid: Some(val) });
            },
            Some(held) => {
                assert(slot_wf(slots[j]));
                held.lemma_merge(&val);
                lru::lemma_moved_to_mru_wf(
                    slots,
                    j,
                    Slot { id, byte_size: slots[j].byte_size, acid: Some(held.spec_merge(&val)) },
                );
            },
        }
    }
    let last = after.len() - 1;
    assert(after[last].id == id);
    lru::lemma_slot_index(after, last);
}

/// After the note that no record was found, the id answers with a fault,
/// unless a record is cached under it, before anything is evicted.
pub proof fn lemma_noted_is_a_fault<A: Acid>(slots: Seq<Slot<A>>, bytes: u64, id: Id)
    requires
        slots_wf(slots),
    ensures
        slots_wf(noted(slots, bytes, id).0),
        state_of(noted(slots, bytes, id).0, id) == if cached(slots, id) {
            state_of(slots, id)
        } else {
            CacheState::Fault
        },
{
    if !cached(slots, id) {
        let slot = Slot::<A> { id, byte_size: NOT_FOUND_BYTE_SIZE, acid: None };
        lru::lemma_push_wf(slots, slot);
        let after = noted(slots, bytes, id).0;
        assert(after[slots.len() as int].id == id);
        lru::lemma_slot_index(after, slots.len() as int);
    }
}

impl<A: Acid> Environment<A> {
    /// The entries are sound.
    pub closed spec fn wf(&self) -> bool {
        self.cache.wf()
    }

    /// The entries, the least recently used first.
    pub closed spec fn slots(&self) -> Seq<Slot<A>> {
        self.cache@
    }

    /// In a sound cache every entry is sound, and no id has two entries.
    pub proof fn lemma_slots_wf(&self)
        requires
            self.wf(),
        ensures
            slots_wf(self.slots()),
    {
    }

    /// The soft limit of the bytes in use.
    pub closed spec fn soft_limit(&self) -> u64 {
        self.size_soft_limit
    }

    /// The number of chains of the index.
    pub closed spec fn chains(&self) -> nat {
        self.cache.chain_len()
    }

    /// An empty cache with the default soft limit.
    pub fn new() -> (env: Self)
        ensures
            env.wf(),
            env.slots() == Seq::<Slot<A>>::empty(),
            env.soft_limit() == DEFAULT_SIZE_SOFT_LIMIT,
            env.chains() == 1,
    {
        Environment { size_soft_limit: DEFAULT_SIZE_SOFT_LIMIT, cache: LruHashSet::new(1) }
    }

    /// Sets the soft limit.
    pub fn check(&mut self, size_soft_limit: u64)
        requires
            old(self).wf(),
        ensures
            final(self).wf(),
            final(self).slots() == old(self).slots(),
            final(self).soft_limit() == size_soft_limit,
            final(self).chains() == old(self).chains(),
    {
        self.size_soft_limit = size_soft_limit;
    }

    /// Sizes the index for the soft limit. A cache that holds entries keeps its index.
    pub fn init(&mut self)
        requires
            old(self).wf(),
        ensures
            final(self).wf(),
            final(self).slots() == old(self).slots(),
            final(self).soft_limit() == old(self).soft_limit(),
            final(self).chains() == if old(self).slots().len() == 0 {
                spec_index_len(old(self).soft_limit())
            } else {
                old(self).chains()
            },
    {
        if self.cache.len() == 0 {
            let wanted = chain_len(self.size_soft_limit);
            let n: usize = if wanted <= usize::MAX as u64 {
                wanted as usize
            } else {
                usize::MAX
            };
            self.cache = LruHashSet::new(n);
        }
    }

    /// The soft limit of the bytes in use.
    pub fn size_soft_limit(&self) -> (limit: u64)
        ensures
            limit == self.soft_limit(),
    {
        self.size_soft_limit
    }

    /// The number of entries.
    pub fn len(&self) -> (n: usize)
        requires
            self.wf(),
        ensures
            n == self.slots().len(),
    {
        self.cache.len()
    }

    /// Evicts the least recently used entries while the bytes in use exceed the soft limit.
    fn shrink(&mut self, counter: &mut Usage)
        requires
            old(self).wf(),
        ensures
            final(self).wf(),
            final(self).soft_limit() == old(self).soft_limit(),
            final(self).chains() == old(self).chains(),
            (final(self).slots(), final(counter)@) == evicted(
                old(self).slots(),
                old(counter)@,
                old(self).soft_limit(),
            ),
    {
        while self.size_soft_limit < usage(counter) && self.cache.len() > 0
            invariant
                self.wf(),
                self.size_soft_limit == old(self).size_soft_limit,
                self.cache.chain_len() == old(self).cache.chain_len(),
                evicted(self.cache@, counter@, self.size_soft_limit) == evicted(
                    old(self).cache@,
                    old(counter)@,
                    old(self).size_soft_limit,
                ),
            decreases self.cache@.len(),
        {
            match self.cache.expire() {
                Some(slot) => {
                    sub_usage(counter, slot.byte_size);
                },
                None => {},
            }
        }
    }
}

/// The bytes that the cache uses.
pub fn cache_using_byte_size(counter: &Usage) -> (bytes: u64)
    ensures
        bytes == counter@,
{
    usage(counter)
}

/// Counts `bytes` more bytes for the cache, and returns the new count.
pub fn increase_cache_using_size(bytes: u64, counter: &mut Usage) -> (r: u64)
    ensures
        final(counter)@ == old(counter)@.wrapping_add(bytes),
        r == final(counter)@,
{
    add_usage(counter, bytes)
}

/// Counts `bytes` bytes fewer for the cache, and returns the new count.
pub fn decrease_cache_using_size(bytes: u64, counter: &mut Usage) -> (r: u64)
    ensures
        final(counter)@ == old(counter)@.wrapping_sub(bytes),
        r == final(counter)@,
{
    sub_usage(counter, bytes)
}

/// Looks the record `id` up. An entry that is found becomes the most recently used one.
pub fn find<'a, A: Acid>(id: &Id, environment: &'a mut Environment<A>) -> (r: CacheFindResult<
    'a,
    A,
>)
    requires
        old(environment).wf(),
    ensures
        final(environment).wf(),
        final(environment).soft_limit() == old(environment).soft_limit(),
        final(environment).chains() == old(environment).chains(),
        final(environment).slots() == touched(old(environment).slots(), *id),
        match r {
            CacheFindResult::Hit(acid) => state_of(old(environment).slots(), *id)
                == CacheState::Cached && Some(*acid) == old(environment).slots()[slot_index(
                old(environment).slots(),
                *id,
            )].acid,
            CacheFindResult::Lost => state_of(old(environment).slots(), *id) == CacheState::Lost,
            CacheFindResult::Fault => state_of(old(environment).slots(), *id) == CacheState::Fault,
        },
{
    if environment.cache.touch(id) {
        match &environment.cache.mru().acid {
            Some(acid) => CacheFindResult::Hit(acid),
            None => CacheFindResult::Fault,
        }
    } else {
        CacheFindResult::Lost
    }
}

/// Says how the record `id` is cached. An entry that is found becomes the
/// most recently used one.
pub fn is_cached<A: Acid>(id: &Id, environment: &mut Environment<A>) -> (r: CacheState)
    requires
        old(environment).wf(),
    ensures
        final(environment).wf(),
        final(environment).soft_limit() == old(environment).soft_limit(),
        final(environment).chains() == old(environment).chains(),
        final(environment).slots() == touched(old(environment).slots(), *id),
        r == state_of(old(environment).slots(), *id),
{
    match find(id, environment) {
        CacheFindResult::Hit(_) => CacheState::Cached,
        CacheFindResult::Lost => CacheState::Lost,
        CacheFindResult::Fault => CacheState::Fault,
    }
}

/// Every entry of a sound set is sound.
proof fn lemma_wf_at<A: Acid>(slots: Seq<Slot<A>>, j: int)
    requires
        slots_wf(slots),
        0 <= j < slots.len(),
    ensures
        slot_wf(slots[j]),
{
}

/// Stores `val`, accounted with `byte_size` bytes, as the most recently used
/// entry, then evicts the least recently used entries while the bytes in use
/// exceed the soft limit.
pub fn insert<A: Acid>(
    val: A,
    byte_size: u64,
    environment: &mut Environment<A>,
    counter: &mut Usage,
)
    requires
        val.wf(),
        old(environment).wf(),
    ensures
        final(environment).wf(),
        final(environment).soft_limit() == old(environment).soft_limit(),
        final(environment).chains() == old(environment).chains(),
        (final(environment).slots(), final(counter)@) == evicted(
            stored(old(environment).slots(), old(counter)@, val, byte_size).0,
            stored(old(environment).slots(), old(counter)@, val, byte_size).1,
            old(environment).soft_limit(),
        ),
        final(environment).slots().len() == 0 || final(counter)@ <= final(environment).soft_limit(),
{
    let id = *val.id();
    let ghost before = environment.cache@;
    if environment.cache.touch(&id) {
        let ghost j = slot_index(before, id);
        assert(touched(before, id).drop_last() =~= before.remove(j));
        if environment.cache.mru().acid.is_none() {
            let held = environment.cache.replace_mru(Slot { id, byte_size, acid: Some(val) });
            sub_usage(counter, held.byte_size);
            add_usage(counter, byte_size);
        } else {
            let size = environment.cache.mru().byte_size;
            proof {
                lemma_wf_at(environment.cache@, environment.cache@.len() - 1);
            }
            let held = environment.cache.replace_mru(Slot { id, byte_size: size, acid: None });
            match held.acid {
                Some(mut acid) => {
                    proof {
                        acid.lemma_merge(&val);
                    }
                    acid.merge(&val);
                    environment.cache.replace_mru(Slot { id, byte_size: size, acid: Some(acid) });
                    assert(environment.cache@ =~= moved_to_mru(
                        before,
                        j,
                        Slot { id, byte_size: size, acid: Some(acid) },
                    ));
                },
                None => {},
            }
        }
    } else {
        environment.cache.push(Slot { id, byte_size, acid: Some(val) });
        add_usage(counter, byte_size);
    }
    proof {
        lru::lemma_evicted(environment.cache@, counter@, environment.size_soft_limit);
    }
    environment.shrink(counter);
}

/// Notes that the store has no record under `id`, unless the id has an entry
/// already, then evicts the least recently used entries while the bytes in
/// use exceed the soft limit. An entry that is there keeps its place, and
/// nothing is evicted then.
pub fn not_found<A: Acid>(id: Id, environment: &mut Environment<A>, counter: &mut Usage)
    requires
        old(environment).wf(),
    ensures
        final(environment).wf(),
        final(environment).soft_limit() == old(environment).soft_limit(),
        final(environment).chains() == old(environment).chains(),
        (final(environment).slots(), final(counter)@) == if cached(old(environment).slots(), id) {
            (old(environment).slots(), old(counter)@)
        } else {
            evicted(
                noted(old(environment).slots(), old(counter)@, id).0,
                noted(old(environment).slots(), old(counter)@, id).1,
                old(environment).soft_limit(),
            )
        },
        !cached(old(environment).slots(), id) ==> final(environment).slots().len() == 0
            || final(counter)@ <= final(environment).soft_limit(),
{
    if !environment.cache.contains(&id) {
        environment.cache.push(Slot { id, byte_size: NOT_FOUND_BYTE_SIZE, acid: None });
        add_usage(counter, NOT_FOUND_BYTE_SIZE);
        proof {
            lru::lemma_evicted(environment.cache@, counter@, environment.size_soft_limit);
        }
        environment.shrink(counter);
    }
}

/// Evicts the least recently used entry, and says whether there was one.
pub fn expire<A: Acid>(environment: &mut Environment<A>, counter: &mut Usage) -> (r: bool)
    requires
        old(environment).wf(),
    ensures
        final(environment).wf(),
        final(environment).soft_limit() == old(environment).soft_limit(),
        final(environment).chains() == old(environment).chains(),
        r == (old(environment).slots().len() > 0),
        r ==> final(environment).slots() == old(environment).slots().skip(1) && final(counter)@
            == old(counter)@.wrapping_sub(old(environment).slots()[0].byte_size),
        !r ==> final(environment).slots() == old(environment).slots()
            && final(counter)@ == old(counter)@,
{
    match environment.cache.expire() {
        Some(slot) => {
            sub_usage(counter, slot.byte_size);
            true
        },
        None => false,
    }
}

} // verus!

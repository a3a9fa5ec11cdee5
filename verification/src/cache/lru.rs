//! The set of cached entries, in the order of their last use.

use super::links::{
    chain_ok, chain_push, chain_remove, chains_ok, lemma_chains_frame, lemma_list_frame,
    lemma_no_duplicates_bound, lemma_push_no_duplicates, lemma_remove_no_duplicates, list_append,
    list_ok, list_unlink, NIL,
};
use crate::data_types::{Acid, Id};
use vstd::prelude::*;

verus! {

/// An entry of the cache: a record, or the note that the store has no record
/// under the id.
pub struct Slot<A> {
    /// The id under which the entry is found.
    pub id: Id,
    /// The bytes accounted for the entry.
    pub byte_size: u64,
    /// The record; `None` in the note that no record was found.
    pub acid: Option<A>,
}

/// A record stands under its own id.
pub open spec fn slot_wf<A: Acid>(slot: Slot<A>) -> bool {
    slot.acid is Some ==> slot.acid->Some_0.wf() && slot.acid->Some_0.spec_id() == slot.id
}

/// Every entry is sound, and no id has two entries.
pub open spec fn slots_wf<A: Acid>(slots: Seq<Slot<A>>) -> bool {
    &&& forall|i: int| 0 <= i < slots.len() ==> slot_wf(#[trigger] slots[i])
    &&& forall|i: int, j: int| 0 <= i < j < slots.len() ==> slots[i].id != slots[j].id
}

/// Some entry stands under `id`.
pub open spec fn cached<A>(slots: Seq<Slot<A>>, id: Id) -> bool {
    exists|i: int| 0 <= i < slots.len() && (#[trigger] slots[i]).id == id
}

/// The position of the entry under `id`, for an id that has an entry.
pub open spec fn slot_index<A>(slots: Seq<Slot<A>>, id: Id) -> int {
    choose|i: int| 0 <= i < slots.len() && (#[trigger] slots[i]).id == id
}

/// The entries after the one at `j` has been taken out and `slot` has been
/// put at the end, where the most recently used entry stands.
pub open spec fn moved_to_mru<A>(slots: Seq<Slot<A>>, j: int, slot: Slot<A>) -> Seq<Slot<A>> {
    slots.remove(j).push(slot)
}

/// The entries after the entry under `id`, if there is one, has been used.
pub open spec fn touched<A>(slots: Seq<Slot<A>>, id: Id) -> Seq<Slot<A>> {
    if cached(slots, id) {
        moved_to_mru(slots, slot_index(slots, id), slots[slot_index(slots, id)])
    } else {
        slots
    }
}

/// The entries and the bytes in use after the least recently used entries
/// have been evicted, one by one, until the bytes in use are within `limit`
/// or no entry is left.
pub open spec fn evicted<A>(slots: Seq<Slot<A>>, bytes: u64, limit: u64) -> (Seq<Slot<A>>, u64)
    decreases slots.len(),
{
    if bytes <= limit || slots.len() == 0 {
        (slots, bytes)
    } else {
        evicted(slots.skip(1), bytes.wrapping_sub(slots[0].byte_size), limit)
    }
}

/// In a sound set the entry under an id is the only one under it.
pub proof fn lemma_slot_index<A: Acid>(slots: Seq<Slot<A>>, j: int)
    requires
        slots_wf(slots),
        0 <= j < slots.len(),
    ensures
        cached(slots, slots[j].id),
        slot_index(slots, slots[j].id) == j,
{
    let i = slot_index(slots, slots[j].id);
    if i < j {
        assert(slots[i].id != slots[j].id);
    } else if j < i {
        assert(slots[j].id != slots[i].id);
    }
}

/// Replacing an entry by a sound one under the same id, at the end, keeps the set sound.
pub proof fn lemma_moved_to_mru_wf<A: Acid>(slots: Seq<Slot<A>>, j: int, slot: Slot<A>)
    requires
        slots_wf(slots),
        0 <= j < slots.len(),
        slot_wf(slot),
        slot.id == slots[j].id,
    ensures
        slots_wf(moved_to_mru(slots, j, slot)),
        moved_to_mru(slots, j, slot).len() == slots.len(),
{
    let after = moved_to_mru(slots, j, slot);
    let last = slots.len() - 1;
    assert forall|i: int| 0 <= i < after.len() implies slot_wf(#[trigger] after[i]) by {
        if i < j {
            assert(after[i] == slots[i]);
        } else if i < last {
            assert(after[i] == slots[i + 1]);
        }
    }
    assert forall|a: int, b: int| 0 <= a < b < after.len() implies after[a].id != after[b].id by {
        let a0 = if a < j { a } else { a + 1 };
        assert(after[a] == slots[a0]);
        if b < last {
            let b0 = if b < j { b } else { b + 1 };
            assert(after[b] == slots[b0]);
            assert(slots[a0].id != slots[b0].id);
        } else {
            if a0 < j {
                assert(slots[a0].id != slots[j].id);
            } else {
                assert(slots[j].id != slots[a0].id);
            }
        }
    }
}

/// Adding a sound entry under an id without an entry keeps the set sound.
pub proof fn lemma_push_wf<A: Acid>(slots: Seq<Slot<A>>, slot: Slot<A>)
    requires
        slots_wf(slots),
        slot_wf(slot),
        !cached(slots, slot.id),
    ensures
        slots_wf(slots.push(slot)),
{
    let after = slots.push(slot);
    assert forall|i: int| 0 <= i < after.len() implies slot_wf(#[trigger] after[i]) by {
        if i < slots.len() {
            assert(after[i] == slots[i]);
        }
    }
    assert forall|a: int, b: int| 0 <= a < b < after.len() implies after[a].id != after[b].id by {
        assert(after[a] == slots[a]);
        if b < slots.len() {
            assert(after[b] == slots[b]);
        }
    }
}

/// Evicting the least recently used entry keeps the set sound.
pub proof fn lemma_skip_wf<A: Acid>(slots: Seq<Slot<A>>)
    requires
        slots_wf(slots),
        slots.len() > 0,
    ensures
        slots_wf(slots.skip(1)),
{
    let after = slots.skip(1);
    assert forall|i: int| 0 <= i < after.len() implies slot_wf(#[trigger] after[i]) by {
        assert(after[i] == slots[i + 1]);
    }
    assert forall|a: int, b: int| 0 <= a < b < after.len() implies after[a].id != after[b].id by {
        assert(after[a] == slots[a + 1] && after[b] == slots[b + 1]);
    }
}

/// Eviction ends with the bytes in use within the limit, or with no entry
/// left. What is left is sound, and is what was used most recently.
pub proof fn lemma_evicted<A: Acid>(slots: Seq<Slot<A>>, bytes: u64, limit: u64)
    requires
        slots_wf(slots),
    ensures
        evicted(slots, bytes, limit).1 <= limit || evicted(slots, bytes, limit).0.len() == 0,
        slots_wf(evicted(slots, bytes, limit).0),
        evicted(slots, bytes, limit).0.len() <= slots.len(),
        evicted(slots, bytes, limit).0 == slots.skip(
            slots.len() - evicted(slots, bytes, limit).0.len(),
        ),
        bytes <= limit ==> evicted(slots, bytes, limit) == (slots, bytes),
    decreases slots.len(),
{
    if bytes <= limit || slots.len() == 0 {
        assert(slots.skip(0) =~= slots);
    } else {
        lemma_skip_wf(slots);
        let rest = slots.skip(1);
        let less = bytes.wrapping_sub(slots[0].byte_size);
        lemma_evicted(rest, less, limit);
        let left = evicted(rest, less, limit).0;
        assert(rest.skip(rest.len() - left.len()) =~= slots.skip(slots.len() - left.len()));
    }
}

/// The hash of an id: its first four bytes, the first as the least significant.
pub open spec fn spec_hash(id: Id) -> nat {
    (id@[0] + 256 * id@[1] + 65536 * id@[2] + 16777216 * id@[3]) as nat
}

/// The chain that holds the entry under `id`, in an index of `chain_len` chains.
pub open spec fn spec_bucket(id: Id, chain_len: nat) -> int {
    (spec_hash(id) % chain_len) as int
}

/// The hash of an id.
fn hash(id: &Id) -> (h: u64)
    ensures
        h == spec_hash(*id),
{
    let b0 = id.byte(0) as u64;
    let b1 = id.byte(1) as u64;
    let b2 = id.byte(2) as u64;
    let b3 = id.byte(3) as u64;
    b0 + 256 * b1 + 65536 * b2 + 16777216 * b3
}

/// The bucket of each position of the arena; -1 for a position without an entry.
pub open spec fn buckets_of<A>(slots: Seq<Option<Slot<A>>>, chain_len: nat) -> Seq<int> {
    Seq::new(
        slots.len(),
        |k: int|
            match slots[k] {
                Some(slot) => spec_bucket(slot.id, chain_len),
                None => -1,
            },
    )
}

/// The free positions are those without an entry, each listed once.
pub open spec fn free_ok<A>(slots: Seq<Option<Slot<A>>>, free: Seq<usize>) -> bool {
    &&& free.no_duplicates()
    &&& forall|i: int|
        0 <= i < free.len() ==> (#[trigger] free[i]) < slots.len() && slots[free[i] as int] is None
    &&& forall|k: usize|
        k < slots.len() && (#[trigger] slots[k as int]) is None ==> free.contains(k)
}

/// The positions of the list and of the chains are those with an entry, and
/// each entry stands in the chain of its hash.
pub open spec fn used_ok<A>(
    slots: Seq<Option<Slot<A>>>,
    order: Seq<usize>,
    chains: Seq<Seq<usize>>,
    chain_len: nat,
) -> bool {
    &&& chains.len() == chain_len
    &&& chain_len > 0
    &&& forall|i: int|
        0 <= i < order.len() ==> (#[trigger] order[i]) < slots.len() && slots[order[i] as int] is Some
    &&& forall|c: int, j: int|
        0 <= c < chains.len() && 0 <= j < chains[c].len() ==> (#[trigger] chains[c][j])
            < slots.len() && slots[chains[c][j] as int] is Some
    &&& forall|k: usize|
        k < slots.len() && (#[trigger] slots[k as int]) is Some ==> order.contains(k)
            && chains[spec_bucket(slots[k as int]->Some_0.id, chain_len)].contains(k)
}

/// Filling the last free position keeps the free list right.
proof fn lemma_free_take<A>(slots: Seq<Option<Slot<A>>>, free: Seq<usize>, slot: Slot<A>)
    requires
        free_ok(slots, free),
        free.len() > 0,
    ensures
        free_ok(slots.update(free.last() as int, Some(slot)), free.drop_last()),
{
    let k = free.last();
    let slots2 = slots.update(k as int, Some(slot));
    let free2 = free.drop_last();
    assert(free[free.len() - 1] == k);
    lemma_remove_no_duplicates(free, free.len() - 1);
    assert(free.remove(free.len() - 1) =~= free2);
    assert forall|i: int| 0 <= i < free2.len() implies (#[trigger] free2[i]) < slots2.len()
        && slots2[free2[i] as int] is None by {
        assert(free2[i] == free[i]);
        assert(free[i] != free[free.len() - 1]);
    }
    assert forall|x: usize| x < slots2.len() && (#[trigger] slots2[x as int]) is None implies free2.contains(
        x,
    ) by {
        assert(slots[x as int] is None);
        assert(free.contains(x));
    }
}

/// Growing the arena by a position with an entry keeps the free list right.
proof fn lemma_free_grow<A>(slots: Seq<Option<Slot<A>>>, free: Seq<usize>, slot: Slot<A>)
    requires
        free_ok(slots, free),
    ensures
        free_ok(slots.push(Some(slot)), free),
{
    let slots2 = slots.push(Some(slot));
    assert forall|i: int| 0 <= i < free.len() implies (#[trigger] free[i]) < slots2.len()
        && slots2[free[i] as int] is None by {
        assert(slots2[free[i] as int] == slots[free[i] as int]);
    }
    assert forall|x: usize| x < slots2.len() && (#[trigger] slots2[x as int]) is None implies free.contains(
        x,
    ) by {
        assert(slots[x as int] is None);
    }
}

/// Emptying a position and listing it as free keeps the free list right.
proof fn lemma_free_give<A>(slots: Seq<Option<Slot<A>>>, free: Seq<usize>, k: usize)
    requires
        free_ok(slots, free),
        k < slots.len(),
        slots[k as int] is Some,
    ensures
        free_ok(slots.update(k as int, None), free.push(k)),
{
    let slots2 = slots.update(k as int, None::<Slot<A>>);
    let free2 = free.push(k);
    if free.contains(k) {
        let i = free.index_of(k);
        assert(slots[free[i] as int] is None);
    }
    lemma_push_no_duplicates(free, k);
    assert forall|i: int| 0 <= i < free2.len() implies (#[trigger] free2[i]) < slots2.len()
        && slots2[free2[i] as int] is None by {
        if i < free.len() {
            assert(free2[i] == free[i]);
        }
    }
    assert forall|x: usize| x < slots2.len() && (#[trigger] slots2[x as int]) is None implies free2.contains(
        x,
    ) by {
        if x != k {
            assert(slots[x as int] is None);
            assert(free.contains(x));
        }
    }
}

/// Putting an entry into a position without one, at the end of the list and
/// at the head of its chain, keeps the positions right.
proof fn lemma_used_add<A>(
    slots: Seq<Option<Slot<A>>>,
    slots2: Seq<Option<Slot<A>>>,
    order: Seq<usize>,
    chains: Seq<Seq<usize>>,
    chain_len: nat,
    k: usize,
    slot: Slot<A>,
)
    requires
        used_ok(slots, order, chains, chain_len),
        k <= slots.len(),
        k < slots.len() ==> slots[k as int] is None && slots2 == slots.update(k as int, Some(slot)),
        k == slots.len() ==> slots2 == slots.push(Some(slot)),
    ensures
        !order.contains(k),
        forall|c: int| 0 <= c < chains.len() ==> !(#[trigger] chains[c]).contains(k),
        used_ok(
            slots2,
            order.push(k),
            chains.update(
                spec_bucket(slot.id, chain_len),
                seq![k] + chains[spec_bucket(slot.id, chain_len)],
            ),
            chain_len,
        ),
        forall|c: int, j: int|
            0 <= c < chains.len() && 0 <= j < chains[c].len() ==> buckets_of(slots2, chain_len)[(
            #[trigger] chains[c][j]) as int] == buckets_of(slots, chain_len)[chains[c][j] as int],
        buckets_of(slots2, chain_len)[k as int] == spec_bucket(slot.id, chain_len),
{
    let b = spec_bucket(slot.id, chain_len);
    let order2 = order.push(k);
    let longer = seq![k] + chains[b];
    let chains2 = chains.update(b, longer);
    if order.contains(k) {
        let i = order.index_of(k);
        assert(slots[order[i] as int] is Some);
    }
    assert forall|c: int| 0 <= c < chains.len() implies !(#[trigger] chains[c]).contains(k) by {
        if chains[c].contains(k) {
            let j = chains[c].index_of(k);
            assert(slots[chains[c][j] as int] is Some);
        }
    }
    assert forall|i: int| 0 <= i < order2.len() implies (#[trigger] order2[i]) < slots2.len()
        && slots2[order2[i] as int] is Some by {
        if i < order.len() {
            assert(order2[i] == order[i]);
            assert(slots[order[i] as int] is Some);
        }
    }
    assert forall|c: int, j: int| 0 <= c < chains2.len() && 0 <= j < chains2[c].len() implies (
    #[trigger] chains2[c][j]) < slots2.len() && slots2[chains2[c][j] as int] is Some by {
        if c == b {
            if j > 0 {
                assert(longer[j] == chains[b][j - 1]);
                assert(slots[chains[b][j - 1] as int] is Some);
            }
        } else {
            assert(slots[chains[c][j] as int] is Some);
        }
    }
    assert forall|x: usize| x < slots2.len() && (#[trigger] slots2[x as int]) is Some implies order2.contains(
        x,
    ) && chains2[spec_bucket(slots2[x as int]->Some_0.id, chain_len)].contains(x) by {
        if x == k {
            assert(order2[order.len() as int] == k);
            assert(longer[0] == k);
        } else {
            assert(slots[x as int] is Some);
            assert(order.contains(x));
            let i = order.index_of(x);
            assert(order2[i] == x);
            let d = spec_bucket(slots[x as int]->Some_0.id, chain_len);
            assert(chains[d].contains(x));
            if d == b {
                let j = chains[d].index_of(x);
                assert(longer[j + 1] == x);
            }
        }
    }
    assert forall|c: int, j: int|
        0 <= c < chains.len() && 0 <= j < chains[c].len() implies buckets_of(slots2, chain_len)[(
    #[trigger] chains[c][j]) as int] == buckets_of(slots, chain_len)[chains[c][j] as int] by {
        assert(slots[chains[c][j] as int] is Some);
    }
}

/// Emptying a position, and taking it out of the list and of its chain, keeps the positions right.
proof fn lemma_used_drop<A>(
    slots: Seq<Option<Slot<A>>>,
    order: Seq<usize>,
    chains: Seq<Seq<usize>>,
    chain_len: nat,
    k: usize,
)
    requires
        used_ok(slots, order, chains, chain_len),
        order.no_duplicates(),
        forall|c: int| 0 <= c < chains.len() ==> (#[trigger] chains[c]).no_duplicates(),
        forall|c: int, j: int|
            0 <= c < chains.len() && 0 <= j < chains[c].len() ==> spec_bucket(
                slots[(#[trigger] chains[c][j]) as int]->Some_0.id,
                chain_len,
            ) == c,
        k < slots.len(),
        slots[k as int] is Some,
    ensures
        order.contains(k),
        chains[spec_bucket(slots[k as int]->Some_0.id, chain_len)].contains(k),
        used_ok(
            slots.update(k as int, None),
            order.remove(order.index_of(k)),
            chains.update(
                spec_bucket(slots[k as int]->Some_0.id, chain_len),
                chains[spec_bucket(slots[k as int]->Some_0.id, chain_len)].remove(
                    chains[spec_bucket(slots[k as int]->Some_0.id, chain_len)].index_of(k),
                ),
            ),
            chain_len,
        ),
{
    let b = spec_bucket(slots[k as int]->Some_0.id, chain_len);
    let slots2 = slots.update(k as int, None::<Slot<A>>);
    let p = order.index_of(k);
    let order2 = order.remove(p);
    let q = chains[b].index_of(k);
    let shorter = chains[b].remove(q);
    let chains2 = chains.update(b, shorter);
    assert(order.contains(k));
    assert(chains[b].contains(k));
    lemma_remove_no_duplicates(order, p);
    lemma_remove_no_duplicates(chains[b], q);
    assert forall|i: int| 0 <= i < order2.len() implies (#[trigger] order2[i]) < slots2.len()
        && slots2[order2[i] as int] is Some by {
        let a = if i < p { i } else { i + 1 };
        assert(order2[i] == order[a]);
        assert(slots[order[a] as int] is Some);
        assert(order2.contains(order2[i]));
    }
    assert forall|c: int, j: int| 0 <= c < chains2.len() && 0 <= j < chains2[c].len() implies (
    #[trigger] chains2[c][j]) < slots2.len() && slots2[chains2[c][j] as int] is Some by {
        if c == b {
            let a = if j < q { j } else { j + 1 };
            assert(shorter[j] == chains[b][a]);
            assert(slots[chains[b][a] as int] is Some);
            assert(shorter.contains(shorter[j]));
        } else {
            assert(slots[chains[c][j] as int] is Some);
            assert(spec_bucket(slots[chains[c][j] as int]->Some_0.id, chain_len) == c);
        }
    }
    assert forall|x: usize| x < slots2.len() && (#[trigger] slots2[x as int]) is Some implies order2.contains(
        x,
    ) && chains2[spec_bucket(slots2[x as int]->Some_0.id, chain_len)].contains(x) by {
        assert(x != k);
        assert(slots[x as int] is Some);
        assert(order.contains(x));
        let d = spec_bucket(slots[x as int]->Some_0.id, chain_len);
        assert(chains[d].contains(x));
    }
}

/// The set of cached entries: an arena of entries, a doubly linked list that
/// keeps them in the order of their last use, and an index of chains by the
/// hash of the id.
pub struct LruHashSet<A> {
    slots: Vec<Option<Slot<A>>>,
    prevs: Vec<usize>,
    nexts: Vec<usize>,
    chain_next: Vec<usize>,
    free: Vec<usize>,
    heads: Vec<usize>,
    lru: usize,
    mru: usize,
    count: usize,
    order: Ghost<Seq<usize>>,
    chains: Ghost<Seq<Seq<usize>>>,
}

impl<A> View for LruHashSet<A> {
    type V = Seq<Slot<A>>;

    closed spec fn view(&self) -> Seq<Slot<A>> {
        Seq::new(self.order@.len(), |i: int| self.slots@[self.order@[i] as int]->Some_0)
    }
}

impl<A: Acid> LruHashSet<A> {
    /// The list links all the entries, least recently used first, and each
    /// entry stands in the chain of its hash: the linkage is sound.
    pub closed spec fn linked(&self) -> bool {
        &&& self.slots@.len() == self.prevs@.len()
        &&& self.slots@.len() == self.chain_next@.len()
        &&& list_ok(self.order@, self.prevs@, self.nexts@, self.lru, self.mru)
        &&& chains_ok(
            self.chains@,
            self.heads@,
            self.chain_next@,
            buckets_of(self.slots@, self.heads@.len()),
        )
        &&& self.count == self.order@.len()
        &&& used_ok(self.slots@, self.order@, self.chains@, self.heads@.len())
        &&& free_ok(self.slots@, self.free@)
    }

    /// The number of chains of the index.
    pub closed spec fn chain_len(&self) -> nat {
        self.heads@.len()
    }

    /// The linkage is sound, every entry is sound, and no id has two entries.
    pub open spec fn wf(&self) -> bool {
        &&& self.linked()
        &&& slots_wf(self@)
    }

    /// An empty set with an index of `chain_len` chains, and of one chain for 0.
    pub fn new(chain_len: usize) -> (set: Self)
        ensures
            set.wf(),
            set@ == Seq::<Slot<A>>::empty(),
            set.chain_len() == if chain_len == 0 {
                1
            } else {
                chain_len as nat
            },
    {
        let n = if chain_len == 0 {
            1
        } else {
            chain_len
        };
        let mut heads: Vec<usize> = Vec::new();
        while heads.len() < n
            invariant
                heads@.len() <= n,
                forall|c: int| 0 <= c < heads@.len() ==> heads@[c] == NIL,
            decreases n - heads@.len(),
        {
            heads.push(NIL);
        }
        let set = LruHashSet {
            slots: Vec::new(),
            prevs: Vec::new(),
            nexts: Vec::new(),
            chain_next: Vec::new(),
            free: Vec::new(),
            heads,
            lru: NIL,
            mru: NIL,
            count: 0,
            order: Ghost(Seq::empty()),
            chains: Ghost(Seq::new(n as nat, |c: int| Seq::empty())),
        };
        assert(set@ =~= Seq::<Slot<A>>::empty());
        set
    }

    /// The number of entries.
    pub fn len(&self) -> (n: usize)
        requires
            self.wf(),
        ensures
            n == self@.len(),
    {
        self.count
    }

    /// The chain of `id`.
    fn bucket(&self, id: &Id) -> (c: usize)
        requires
            self.heads@.len() >= 1,
        ensures
            c == spec_bucket(*id, self.heads@.len()),
            c < self.heads@.len(),
    {
        let n = self.heads.len() as u64;
        (hash(id) % n) as usize
    }

    /// The position in the arena of the entry under `id`.
    fn lookup(&self, id: &Id) -> (r: Option<usize>)
        requires
            self.linked(),
        ensures
            match r {
                Some(k) => k < self.slots@.len() && self.slots@[k as int] is Some
                    && self.slots@[k as int]->Some_0.id == *id,
                None => forall|k: usize|
                    k < self.slots@.len() && (#[trigger] self.slots@[k as int]) is Some
                        ==> self.slots@[k as int]->Some_0.id != *id,
            },
    {
        let c = self.bucket(id);
        let ghost chain = self.chains@[c as int];
        let len = self.slots.len();
        let mut cur = self.heads[c];
        let ghost mut j: int = 0;
        proof {
            assert(chain_ok(chain, self.chain_next@, self.heads@[c as int]));
            assert forall|i: int| 0 <= i < chain.len() implies (#[trigger] chain[i]) != NIL by {
                assert(chain[i] < len);
            }
        }
        while cur != NIL
            invariant
                self.linked(),
                c < self.heads@.len(),
                c == spec_bucket(*id, self.heads@.len()),
                chain == self.chains@[c as int],
                chain_ok(chain, self.chain_next@, self.heads@[c as int]),
                0 <= j <= chain.len(),
                cur == (if j < chain.len() {
                    chain[j]
                } else {
                    NIL
                }),
                forall|i: int| 0 <= i < chain.len() ==> (#[trigger] chain[i]) != NIL,
                forall|i: int|
                    0 <= i < j ==> self.slots@[(#[trigger] chain[i]) as int]->Some_0.id != *id,
            decreases chain.len() - j,
        {
            proof {
                assert(cur == chain[j]);
                assert(self.slots@[self.chains@[c as int][j] as int] is Some);
                assert(self.chain_next@[chain[j] as int] == if j == chain.len() - 1 {
                    NIL
                } else {
                    chain[j + 1]
                });
            }
            let found = match &self.slots[cur] {
                Some(slot) => slot.id.same(id),
                None => false,
            };
            if found {
                return Some(cur);
            }
            cur = self.chain_next[cur];
            proof {
                j = j + 1;
            }
        }
        proof {
            assert forall|k: usize|
                k < self.slots@.len() && (#[trigger] self.slots@[k as int]) is Some implies self.slots@[k as int]->Some_0.id
                != *id by {
                if self.slots@[k as int]->Some_0.id == *id {
                    assert(chain.contains(k));
                    let i = chain.index_of(k);
                    assert(self.slots@[chain[i] as int]->Some_0.id != *id);
                }
            }
        }
        None
    }

    /// An entry of the arena is an entry of the set, and the only one under its id.
    proof fn lemma_position(&self, k: usize)
        requires
            self.wf(),
            k < self.slots@.len(),
            self.slots@[k as int] is Some,
        ensures
            self.order@.contains(k),
            0 <= self.order@.index_of(k) < self@.len(),
            self@[self.order@.index_of(k)] == self.slots@[k as int]->Some_0,
            cached(self@, self.slots@[k as int]->Some_0.id),
            slot_index(self@, self.slots@[k as int]->Some_0.id) == self.order@.index_of(k),
    {
        let p = self.order@.index_of(k);
        assert(self.order@[p] == k);
        lemma_slot_index(self@, p);
    }

    /// An id without an entry in the arena has no entry in the set.
    proof fn lemma_absent(&self, id: Id)
        requires
            self.linked(),
            forall|k: usize|
                k < self.slots@.len() && (#[trigger] self.slots@[k as int]) is Some
                    ==> self.slots@[k as int]->Some_0.id != id,
        ensures
            !cached(self@, id),
    {
        if cached(self@, id) {
            let i = slot_index(self@, id);
            let k = self.order@[i];
            assert(self.slots@[k as int] is Some);
        }
    }

    /// Whether some entry stands under `id`. The order of use stays as it is.
    pub fn contains(&self, id: &Id) -> (r: bool)
        requires
            self.wf(),
        ensures
            r == cached(self@, *id),
    {
        match self.lookup(id) {
            Some(k) => {
                proof {
                    self.lemma_position(k);
                }
                true
            },
            None => {
                proof {
                    self.lemma_absent(*id);
                }
                false
            },
        }
    }

    /// Uses the entry under `id`, which makes it the most recently used one,
    /// and says whether there is such an entry.
    pub fn touch(&mut self, id: &Id) -> (found: bool)
        requires
            old(self).wf(),
        ensures
            final(self).wf(),
            final(self).chain_len() == old(self).chain_len(),
            found == cached(old(self)@, *id),
            final(self)@ == touched(old(self)@, *id),
            found ==> final(self)@.len() > 0 && final(self)@.last() == old(self)@[slot_index(
                old(self)@,
                *id,
            )],
    {
        match self.lookup(id) {
            None => {
                proof {
                    self.lemma_absent(*id);
                }
                false
            },
            Some(k) => {
                let ghost before = self@;
                let ghost order = self.order@;
                let ghost p = order.index_of(k);
                proof {
                    self.lemma_position(k);
                    lemma_remove_no_duplicates(order, p);
                    lemma_push_no_duplicates(order.remove(p), k);
                    lemma_moved_to_mru_wf(before, p, before[p]);
                }
                list_unlink(
                    &mut self.prevs,
                    &mut self.nexts,
                    &mut self.lru,
                    &mut self.mru,
                    k,
                    Ghost(order),
                );
                list_append(
                    &mut self.prevs,
                    &mut self.nexts,
                    &mut self.lru,
                    &mut self.mru,
                    k,
                    Ghost(order.remove(p)),
                );
                self.order = Ghost(order.remove(p).push(k));
                proof {
                    let after = self.order@;
                    assert forall|i: int| 0 <= i < after.len() implies (#[trigger] after[i])
                        < self.slots@.len() && self.slots@[after[i] as int] is Some by {
                        if i < after.len() - 1 {
                            let a = if i < p { i } else { i + 1 };
                            assert(after[i] == order[a]);
                            assert(self.slots@[order[a] as int] is Some);
                        }
                    }
                    assert forall|x: usize|
                        x < self.slots@.len() && (#[trigger] self.slots@[x as int]) is Some implies after.contains(
                        x,
                    ) by {
                        assert(order.contains(x));
                    }
                    assert(self@ =~= moved_to_mru(before, p, before[p])) by {
                        assert forall|i: int| 0 <= i < after.len() implies self@[i] == moved_to_mru(
                            before,
                            p,
                            before[p],
                        )[i] by {
                            if i < after.len() - 1 {
                                let a = if i < p { i } else { i + 1 };
                                assert(after[i] == order[a]);
                            }
                        }
                    }
                }
                true
            },
        }
    }

    /// The entry used most recently.
    pub fn mru(&self) -> (slot: &Slot<A>)
        requires
            self.wf(),
            self@.len() > 0,
        ensures
            *slot == self@.last(),
    {
        proof {
            let last = self.order@.len() - 1;
            assert(self.slots@[self.order@[last] as int] is Some);
        }
        self.slots[self.mru].as_ref().unwrap()
    }

    /// Puts `slot` in the place of the entry used most recently, which
    /// stands under the same id, and hands that entry out.
    pub fn replace_mru(&mut self, slot: Slot<A>) -> (held: Slot<A>)
        requires
            old(self).wf(),
            old(self)@.len() > 0,
            slot_wf(slot),
            slot.id == old(self)@.last().id,
        ensures
            final(self).wf(),
            final(self).chain_len() == old(self).chain_len(),
            held == old(self)@.last(),
            final(self)@ == old(self)@.drop_last().push(slot),
    {
        let ghost before = self@;
        let ghost slots = self.slots@;
        let ghost n = self.heads@.len();
        let k = self.mru;
        proof {
            let last = self.order@.len() - 1;
            assert(self.order@[last] == k);
            assert(slots[self.order@[last] as int] is Some);
            lemma_moved_to_mru_wf(before, last, slot);
            assert(moved_to_mru(before, last, slot) =~= before.drop_last().push(slot));
        }
        self.slots.push(Some(slot));
        let held = self.slots.swap_remove(k);
        proof {
            assert(self.slots@ =~= slots.update(k as int, Some(slot)));
            assert(buckets_of(self.slots@, n) =~= buckets_of(slots, n));
            assert forall|i: int| 0 <= i < self.order@.len() implies (#[trigger] self.order@[i])
                < self.slots@.len() && self.slots@[self.order@[i] as int] is Some by {
                assert(slots[self.order@[i] as int] is Some);
            }
            assert forall|c: int, j: int|
                0 <= c < self.chains@.len() && 0 <= j < self.chains@[c].len() implies (
            #[trigger] self.chains@[c][j]) < self.slots@.len()
                && self.slots@[self.chains@[c][j] as int] is Some by {
                assert(slots[self.chains@[c][j] as int] is Some);
            }
            assert forall|x: usize|
                x < self.slots@.len() && (#[trigger] self.slots@[x as int]) is Some implies self.order@.contains(
                x,
            ) && self.chains@[spec_bucket(self.slots@[x as int]->Some_0.id, n)].contains(x) by {
                assert(slots[x as int] is Some);
            }
            assert forall|i: int| 0 <= i < self.free@.len() implies (#[trigger] self.free@[i])
                < self.slots@.len() && self.slots@[self.free@[i] as int] is None by {
                assert(slots[self.free@[i] as int] is None);
            }
            assert forall|x: usize|
                x < self.slots@.len() && (#[trigger] self.slots@[x as int]) is None implies self.free@.contains(
                x,
            ) by {
                assert(slots[x as int] is None);
            }
            assert(self@ =~= before.drop_last().push(slot)) by {
                assert forall|i: int| 0 <= i < self.order@.len() implies self@[i]
                    == before.drop_last().push(slot)[i] by {
                    if i < self.order@.len() - 1 {
                        assert(self.order@[i] != self.order@[self.order@.len() - 1]);
                    }
                }
            }
        }
        held.unwrap()
    }

    /// Puts `slot` into a position of the arena without an entry, and returns the position.
    fn place(&mut self, slot: Slot<A>) -> (k: usize)
        requires
            old(self).linked(),
        ensures
            k <= old(self).slots@.len(),
            k < old(self).slots@.len() ==> old(self).slots@[k as int] is None && final(self).slots@
                == old(self).slots@.update(k as int, Some(slot)),
            k == old(self).slots@.len() ==> final(self).slots@ == old(self).slots@.push(Some(slot)),
            final(self).slots@.len() == final(self).prevs@.len(),
            final(self).slots@.len() == final(self).nexts@.len(),
            final(self).slots@.len() == final(self).chain_next@.len(),
            forall|x: int|
                0 <= x < old(self).slots@.len() ==> final(self).prevs@[x] == old(self).prevs@[x]
                    && final(self).nexts@[x] == old(self).nexts@[x] && final(self).chain_next@[x]
                    == old(self).chain_next@[x],
            free_ok(final(self).slots@, final(self).free@),
            final(self).heads == old(self).heads,
            final(self).lru == old(self).lru,
            final(self).mru == old(self).mru,
            final(self).count == old(self).count,
            final(self).order == old(self).order,
            final(self).chains == old(self).chains,
    {
        let ghost slots = self.slots@;
        let ghost free = self.free@;
        if self.free.len() > 0 {
            proof {
                lemma_free_take(slots, free, slot);
                assert(free[free.len() - 1] < slots.len());
            }
            let k = self.free.pop().unwrap();
            self.slots.push(Some(slot));
            self.slots.swap_remove(k);
            assert(self.slots@ =~= slots.update(k as int, Some(slot)));
            k
        } else {
            proof {
                lemma_free_grow(slots, free, slot);
            }
            let k = self.slots.len();
            self.slots.push(Some(slot));
            self.prevs.push(NIL);
            self.nexts.push(NIL);
            self.chain_next.push(NIL);
            k
        }
    }

    /// Adds `slot`, under an id without an entry, as the entry used most recently.
    pub fn push(&mut self, slot: Slot<A>)
        requires
            old(self).wf(),
            slot_wf(slot),
            !cached(old(self)@, slot.id),
        ensures
            final(self).wf(),
            final(self).chain_len() == old(self).chain_len(),
            final(self)@ == old(self)@.push(slot),
    {
        let ghost before = self@;
        let ghost slots = self.slots@;
        let ghost order = self.order@;
        let ghost chains = self.chains@;
        let ghost n = self.heads@.len();
        let c = self.bucket(&slot.id);
        let k = self.place(slot);
        let ghost buckets = buckets_of(self.slots@, n);
        proof {
            lemma_push_wf(before, slot);
            lemma_used_add(slots, self.slots@, order, chains, n, k, slot);
            lemma_list_frame(
                order,
                old(self).prevs@,
                old(self).nexts@,
                self.prevs@,
                self.nexts@,
                self.lru,
                self.mru,
            );
            lemma_chains_frame(
                chains,
                self.heads@,
                old(self).chain_next@,
                buckets_of(slots, n),
                self.chain_next@,
                buckets,
            );
            lemma_push_no_duplicates(order, k);
            assert forall|i: int| 0 <= i < order.push(k).len() implies (#[trigger] order.push(
                k,
            )[i]) < self.slots@.len() by {
                if i < order.len() {
                    assert(order.push(k)[i] == order[i]);
                }
            }
            lemma_no_duplicates_bound(order.push(k), self.slots@.len());
        }
        let len = self.slots.len();
        chain_push(&mut self.heads, &mut self.chain_next, c, k, Ghost(chains), Ghost(buckets));
        list_append(
            &mut self.prevs,
            &mut self.nexts,
            &mut self.lru,
            &mut self.mru,
            k,
            Ghost(order),
        );
        self.order = Ghost(order.push(k));
        self.chains = Ghost(chains.update(c as int, seq![k] + chains[c as int]));
        assert(self.count < len);
        self.count = self.count + 1;
        proof {
            let after = self.order@;
            assert(self@ =~= before.push(slot)) by {
                assert forall|i: int| 0 <= i < after.len() implies self@[i] == before.push(
                    slot,
                )[i] by {
                    if i < order.len() {
                        assert(after[i] == order[i]);
                        assert(order.contains(order[i]));
                        assert(order[i] != k);
                        assert(self.slots@[order[i] as int] == slots[order[i] as int]);
                    }
                }
            }
        }
    }

    /// Takes the entry used least recently out, if there is an entry.
    pub fn expire(&mut self) -> (slot: Option<Slot<A>>)
        requires
            old(self).wf(),
        ensures
            final(self).wf(),
            final(self).chain_len() == old(self).chain_len(),
            match slot {
                Some(slot) => old(self)@.len() > 0 && slot == old(self)@[0] && final(self)@ == old(
                    self,
                )@.skip(1),
                None => old(self)@.len() == 0 && final(self)@ == old(self)@,
            },
    {
        if self.count == 0 {
            return None;
        }
        let ghost before = self@;
        let ghost slots = self.slots@;
        let ghost order = self.order@;
        let ghost chains = self.chains@;
        let ghost free = self.free@;
        let ghost n = self.heads@.len();
        let ghost buckets = buckets_of(slots, n);
        let k = self.lru;
        proof {
            assert(order[0] == k);
            assert(slots[order[0] as int] is Some);
            assert(order.contains(k));
            assert(order.index_of(k) == 0) by {
                let p = order.index_of(k);
                if p != 0 {
                    assert(order[p] != order[0]);
                }
            }
            lemma_skip_wf(before);
            assert forall|d: int| 0 <= d < chains.len() implies (#[trigger] chains[d]).no_duplicates() by {
                assert(chain_ok(chains[d], self.chain_next@, self.heads@[d]));
            }
            assert forall|d: int, j: int|
                0 <= d < chains.len() && 0 <= j < chains[d].len() implies spec_bucket(
                slots[(#[trigger] chains[d][j]) as int]->Some_0.id,
                n,
            ) == d by {
                assert(buckets[chains[d][j] as int] == d);
                assert(slots[chains[d][j] as int] is Some);
            }
            lemma_used_drop(slots, order, chains, n, k);
            lemma_free_give(slots, free, k);
        }
        let c = match &self.slots[k] {
            Some(slot) => self.bucket(&slot.id),
            None => 0,
        };
        list_unlink(&mut self.prevs, &mut self.nexts, &mut self.lru, &mut self.mru, k, Ghost(order));
        chain_remove(&mut self.heads, &mut self.chain_next, c, k, Ghost(chains), Ghost(buckets));
        self.slots.push(None);
        let held = self.slots.swap_remove(k);
        self.free.push(k);
        self.order = Ghost(order.remove(0));
        self.chains = Ghost(
            chains.update(c as int, chains[c as int].remove(chains[c as int].index_of(k))),
        );
        self.count = self.count - 1;
        proof {
            let after = self.order@;
            let pos = chains[c as int].index_of(k);
            let shorter = chains[c as int].remove(pos);
            assert(self.slots@ =~= slots.update(k as int, None));
            lemma_remove_no_duplicates(chains[c as int], pos);
            lemma_remove_no_duplicates(order, 0);
            assert forall|d: int, j: int|
                0 <= d < self.chains@.len() && 0 <= j < self.chains@[d].len() implies buckets_of(
                self.slots@,
                n,
            )[(#[trigger] self.chains@[d][j]) as int] == buckets[self.chains@[d][j] as int] by {
                assert(self.slots@[self.chains@[d][j] as int] is Some);
            }
            lemma_chains_frame(
                self.chains@,
                self.heads@,
                self.chain_next@,
                buckets,
                self.chain_next@,
                buckets_of(self.slots@, n),
            );
            assert(self@ =~= before.skip(1)) by {
                assert forall|i: int| 0 <= i < after.len() implies self@[i] == before.skip(
                    1,
                )[i] by {
                    assert(after[i] == order[i + 1]);
                    assert(order[i + 1] != order[0]);
                }
            }
        }
        held
    }
}

} // verus!

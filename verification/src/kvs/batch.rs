//! The batch of writes that wait for the next flush, and what a flush does to the stores.

use crate::data_types::Id;
use vstd::prelude::*;

verus! {

/// What a store holds: the bytes under each key.
pub type Store = Map<Id, Seq<u8>>;

/// A write of one store: the bytes `value` go under `key`.
pub struct Entry {
    pub key: Id,
    pub value: Vec<u8>,
}

impl View for Entry {
    type V = (Id, Seq<u8>);

    open spec fn view(&self) -> (Id, Seq<u8>) {
        (self.key, self.value@)
    }
}

/// One call of `put`: the parts of a record that are to be written. A part
/// without a byte is not written.
pub struct Put {
    pub id: Id,
    pub intrinsic: Vec<u8>,
    pub extrinsic: Vec<u8>,
}

/// What a `Put` stands for.
pub struct PutView {
    pub id: Id,
    pub intrinsic: Seq<u8>,
    pub extrinsic: Seq<u8>,
}

impl View for Put {
    type V = PutView;

    open spec fn view(&self) -> PutView {
        PutView { id: self.id, intrinsic: self.intrinsic@, extrinsic: self.extrinsic@ }
    }
}

/// The views of the puts of a batch.
pub open spec fn puts_view(puts: Seq<Put>) -> Seq<PutView> {
    Seq::new(puts.len(), |i: int| puts[i]@)
}

/// The views of the entries of a write.
pub open spec fn entries_view(entries: Seq<Entry>) -> Seq<(Id, Seq<u8>)> {
    Seq::new(entries.len(), |i: int| entries[i]@)
}

/// The writes of the intrinsic store that `puts` ask for, in their order.
pub open spec fn intrinsic_entries(puts: Seq<PutView>) -> Seq<(Id, Seq<u8>)>
    decreases puts.len(),
{
    if puts.len() == 0 {
        Seq::empty()
    } else if puts.last().intrinsic.len() == 0 {
        intrinsic_entries(puts.drop_last())
    } else {
        intrinsic_entries(puts.drop_last()).push((puts.last().id, puts.last().intrinsic))
    }
}

/// The writes of the extrinsic store that `puts` ask for, in their order.
pub open spec fn extrinsic_entries(puts: Seq<PutView>) -> Seq<(Id, Seq<u8>)>
    decreases puts.len(),
{
    if puts.len() == 0 {
        Seq::empty()
    } else if puts.last().extrinsic.len() == 0 {
        extrinsic_entries(puts.drop_last())
    } else {
        extrinsic_entries(puts.drop_last()).push((puts.last().id, puts.last().extrinsic))
    }
}

/// The store after the writes `entries`, in their order.
pub open spec fn written(store: Store, entries: Seq<(Id, Seq<u8>)>) -> Store
    decreases entries.len(),
{
    if entries.len() == 0 {
        store
    } else {
        written(store, entries.drop_last()).insert(entries.last().0, entries.last().1)
    }
}

/// What a read of `store` under `id` returns: the bytes, or none where the store has no entry.
pub open spec fn stored(store: Store, id: Id) -> Seq<u8> {
    if store.contains_key(id) {
        store[id]
    } else {
        Seq::empty()
    }
}

/// Some put of `puts` writes extrinsic data for `id`.
pub open spec fn writes_extrinsic(puts: Seq<PutView>, id: Id) -> bool {
    exists|i: int| 0 <= i < puts.len() && (#[trigger] puts[i]).id == id && puts[i].extrinsic.len() > 0
}

/// The pairs of an intrinsic and an extrinsic store that a reader can meet
/// while the batch `puts` is flushed into the stores `intrinsic` and
/// `extrinsic`: the stores before the flush, the stores between the two
/// writes, and the stores after the flush. The extrinsic store is written
/// first.
pub open spec fn flush_stages(intrinsic: Store, extrinsic: Store, puts: Seq<PutView>) -> Seq<
    (Store, Store),
> {
    seq![
        (intrinsic, extrinsic),
        (intrinsic, written(extrinsic, extrinsic_entries(puts))),
        (written(intrinsic, intrinsic_entries(puts)), written(extrinsic, extrinsic_entries(puts))),
    ]
}

/// A write under another key leaves what is stored under `id` as it is.
pub proof fn lemma_written_last(store: Store, entries: Seq<(Id, Seq<u8>)>, id: Id)
    ensures
        entries.len() > 0 && entries.last().0 == id ==> stored(written(store, entries), id)
            == entries.last().1 && written(store, entries).contains_key(id),
        entries.len() > 0 && entries.last().0 != id ==> stored(written(store, entries), id)
            == stored(written(store, entries.drop_last()), id) && (written(
            store,
            entries,
        ).contains_key(id) <==> written(store, entries.drop_last()).contains_key(id)),
{
}

/// A store that has been written with an entry under `id` holds the key `id`.
pub proof fn lemma_written_contains(store: Store, entries: Seq<(Id, Seq<u8>)>, i: int)
    requires
        0 <= i < entries.len(),
    ensures
        written(store, entries).contains_key(entries[i].0),
    decreases entries.len(),
{
    if i < entries.len() - 1 {
        lemma_written_contains(store, entries.drop_last(), i);
        assert(entries.drop_last()[i] == entries[i]);
    }
}

/// The extrinsic entries of a batch hold the key of each put that writes extrinsic data.
pub proof fn lemma_extrinsic_entries_key(puts: Seq<PutView>, i: int) -> (k: int)
    requires
        0 <= i < puts.len(),
        puts[i].extrinsic.len() > 0,
    ensures
        0 <= k < extrinsic_entries(puts).len(),
        extrinsic_entries(puts)[k].0 == puts[i].id,
    decreases puts.len(),
{
    if i == puts.len() - 1 {
        extrinsic_entries(puts).len() - 1
    } else {
        let k = lemma_extrinsic_entries_key(puts.drop_last(), i);
        assert(puts.drop_last()[i] == puts[i]);
        if puts.last().extrinsic.len() > 0 {
            assert(extrinsic_entries(puts)[k] == extrinsic_entries(puts.drop_last())[k]);
        }
        k
    }
}

/// A record that was written and flushed is read back: where `put` is the
/// last put of a batch and writes intrinsic data, the stores hold after the
/// flush, under its id, its intrinsic data and its extrinsic data. This
/// leaves out a put without extrinsic data over an extrinsic entry that is
/// there already, which the flush does not touch.
pub proof fn lemma_insert_then_fetch(
    intrinsic: Store,
    extrinsic: Store,
    puts: Seq<PutView>,
    put: PutView,
)
    requires
        put.intrinsic.len() > 0,
        put.extrinsic.len() > 0 || !written(extrinsic, extrinsic_entries(puts)).contains_key(put.id),
    ensures
        stored(written(intrinsic, intrinsic_entries(puts.push(put))), put.id) == put.intrinsic,
        stored(written(extrinsic, extrinsic_entries(puts.push(put))), put.id) == put.extrinsic,
{
    let all = puts.push(put);
    assert(all.drop_last() == puts);
    assert(all.last() == put);
    lemma_written_last(intrinsic, intrinsic_entries(all), put.id);
    if put.extrinsic.len() > 0 {
        lemma_written_last(extrinsic, extrinsic_entries(all), put.id);
    } else {
        assert(extrinsic_entries(all) == extrinsic_entries(puts));
    }
}

/// The order of a flush: at every stage, a record that the intrinsic store
/// holds since this flush, and for which the batch writes extrinsic data, has
/// its entry in the extrinsic store. No reader meets the intrinsic data of
/// such a record without its extrinsic data.
pub proof fn lemma_flush_order(
    intrinsic: Store,
    extrinsic: Store,
    puts: Seq<PutView>,
    id: Id,
    stage: int,
)
    requires
        0 <= stage < 3,
        !intrinsic.contains_key(id),
        writes_extrinsic(puts, id),
    ensures
        flush_stages(intrinsic, extrinsic, puts)[stage].0.contains_key(id) ==> flush_stages(
            intrinsic,
            extrinsic,
            puts,
        )[stage].1.contains_key(id),
{
    let i = choose|i: int|
        0 <= i < puts.len() && (#[trigger] puts[i]).id == id && puts[i].extrinsic.len() > 0;
    let k = lemma_extrinsic_entries_key(puts, i);
    lemma_written_contains(extrinsic, extrinsic_entries(puts), k);
}

/// The batch of the writes that wait for the next flush.
pub struct WriteBatch {
    puts: Vec<Put>,
}

impl View for WriteBatch {
    type V = Seq<PutView>;

    closed spec fn view(&self) -> Seq<PutView> {
        puts_view(self.puts@)
    }
}

impl WriteBatch {
    /// An empty batch.
    pub fn new() -> (batch: Self)
        ensures
            batch@ == Seq::<PutView>::empty(),
    {
        let batch = WriteBatch { puts: Vec::new() };
        assert(batch@ =~= Seq::<PutView>::empty());
        batch
    }

    /// The number of calls of `put` that changed the batch since it was cleared.
    pub fn len(&self) -> (n: usize)
        ensures
            n == self@.len(),
    {
        self.puts.len()
    }

    /// Appends the parts of the record `id` that have a byte, and says
    /// whether the batch changed.
    pub fn put(&mut self, id: &Id, intrinsic: &[u8], extrinsic: &[u8]) -> (changed: bool)
        ensures
            changed == (intrinsic@.len() > 0 || extrinsic@.len() > 0),
            final(self)@ == if changed {
                old(self)@.push(PutView { id: *id, intrinsic: intrinsic@, extrinsic: extrinsic@ })
            } else {
                old(self)@
            },
    {
        if intrinsic.len() == 0 && extrinsic.len() == 0 {
            return false;
        }
        let put = Put {
            id: *id,
            intrinsic: vstd::slice::slice_to_vec(intrinsic),
            extrinsic: vstd::slice::slice_to_vec(extrinsic),
        };
        self.puts.push(put);
        assert(self@ =~= old(self)@.push(
            PutView { id: *id, intrinsic: intrinsic@, extrinsic: extrinsic@ },
        ));
        true
    }

    /// The writes of the extrinsic store, in the order of the puts.
    pub fn extrinsic(&self) -> (entries: Vec<Entry>)
        ensures
            entries_view(entries@) == extrinsic_entries(self@),
    {
        let mut entries: Vec<Entry> = Vec::new();
        let mut i: usize = 0;
        assert(self@.take(0) =~= Seq::<PutView>::empty());
        assert(entries_view(entries@) =~= extrinsic_entries(self@.take(0)));
        while i < self.puts.len()
            invariant
                i <= self.puts@.len(),
                entries_view(entries@) == extrinsic_entries(self@.take(i as int)),
            decreases self.puts@.len() - i,
        {
            proof {
                assert(self@.take(i + 1).drop_last() =~= self@.take(i as int));
                assert(self@.take(i + 1).last() == self.puts@[i as int]@);
            }
            if self.puts[i].extrinsic.len() > 0 {
                let ghost before = entries@;
                let entry = Entry {
                    key: self.puts[i].id,
                    value: vstd::slice::slice_to_vec(self.puts[i].extrinsic.as_slice()),
                };
                entries.push(entry);
                assert(entries_view(entries@) =~= entries_view(before).push(
                    (self.puts@[i as int].id, self.puts@[i as int].extrinsic@),
                ));
            }
            i = i + 1;
        }
        assert(self@.take(i as int) =~= self@);
        entries
    }

    /// The writes of the intrinsic store, in the order of the puts.
    pub fn intrinsic(&self) -> (entries: Vec<Entry>)
        ensures
            entries_view(entries@) == intrinsic_entries(self@),
    {
        let mut entries: Vec<Entry> = Vec::new();
        let mut i: usize = 0;
        assert(self@.take(0) =~= Seq::<PutView>::empty());
        assert(entries_view(entries@) =~= intrinsic_entries(self@.take(0)));
        while i < self.puts.len()
            invariant
                i <= self.puts@.len(),
                entries_view(entries@) == intrinsic_entries(self@.take(i as int)),
            decreases self.puts@.len() - i,
        {
            proof {
                assert(self@.take(i + 1).drop_last() =~= self@.take(i as int));
                assert(self@.take(i + 1).last() == self.puts@[i as int]@);
            }
            if self.puts[i].intrinsic.len() > 0 {
                let ghost before = entries@;
                let entry = Entry {
                    key: self.puts[i].id,
                    value: vstd::slice::slice_to_vec(self.puts[i].intrinsic.as_slice()),
                };
                entries.push(entry);
                assert(entries_view(entries@) =~= entries_view(before).push(
                    (self.puts@[i as int].id, self.puts@[i as int].intrinsic@),
                ));
            }
            i = i + 1;
        }
        assert(self@.take(i as int) =~= self@);
        entries
    }

    /// Empties the batch.
    pub fn clear(&mut self)
        ensures
            final(self)@ == Seq::<PutView>::empty(),
    {
        self.puts.clear();
        assert(self@ =~= Seq::<PutView>::empty());
    }
}

} // verus!

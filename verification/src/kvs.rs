//! The key/value layer: each record as two entries, one for its intrinsic and
//! one for its extrinsic data.
//!
//! Writes are collected in a batch and flushed together; everyone who wrote
//! into a batch learns the outcome of its flush. The stores themselves are
//! outside: the layer says which entries are to be written or read next, and
//! is told what came of it.

pub mod batch;

pub use batch::{Entry, Put, PutView, Store, WriteBatch};

use crate::data_types::{Acid, Id};
use batch::{entries_view, extrinsic_entries, intrinsic_entries, stored, written};
use vstd::prelude::*;

verus! {

/// The most writes that a batch takes before it waits for someone to ask for
/// its outcome, where nothing else is configured.
pub const DEFAULT_MAX_WRITE_QUERIES: usize = 128;

/// An error of a store, by its status code.
#[derive(Debug, Clone, Copy, PartialEq, Eq, Hash, Structural)]
pub struct Error {
    pub code: i32,
}

/// A record as the stores hold it.
pub struct Row {
    /// The intrinsic data.
    pub intrinsic: Vec<u8>,
    /// The extrinsic data.
    pub extrinsic: Vec<u8>,
}

/// The outcome of the writes of one batch.
#[derive(Debug, Clone, Copy, PartialEq, Eq, Structural)]
pub enum PutResult {
    /// The batch has not been flushed.
    NotYet,
    /// Both stores took the batch.
    Succeeded,
    /// A store refused the batch.
    Error(Error),
}

/// Which write a flush waits for.
#[derive(Debug, Clone, Copy, PartialEq, Eq, Structural)]
pub enum FlushState {
    /// No flush is under way.
    Idle,
    /// The extrinsic entries have been handed out.
    Extrinsic,
    /// The extrinsic entries are written, and the intrinsic entries have been handed out.
    Intrinsic,
}

/// A failed flush: the number of its batch, and the error.
pub struct Failure {
    pub round: u64,
    pub error: Error,
}

/// The outcome of the batch number `round`, where `flushed` batches have
/// been flushed and `failures` lists those that failed.
pub open spec fn outcome(failures: Seq<Failure>, flushed: u64, round: u64) -> PutResult {
    if round >= flushed {
        PutResult::NotYet
    } else if exists|i: int| 0 <= i < failures.len() && (#[trigger] failures[i]).round == round {
        PutResult::Error(
            failures[choose|i: int| 0 <= i < failures.len() && (#[trigger] failures[i]).round
                == round].error,
        )
    } else {
        PutResult::Succeeded
    }
}

/// The state of the layer: the batch that collects writes, the flush under
/// way, and the outcomes of the batches flushed so far.
pub struct Environment {
    max_write_queries: usize,
    write_batch: WriteBatch,
    flushing: FlushState,
    round: u64,
    failures: Vec<Failure>,
}

impl Environment {
    /// The failures are those of flushed batches, one for a batch at most.
    pub closed spec fn wf(&self) -> bool {
        &&& forall|i: int| 0 <= i < self.failures@.len() ==> (#[trigger] self.failures@[i]).round
            < self.round
        &&& forall|i: int, j: int|
            0 <= i < j < self.failures@.len() ==> self.failures@[i].round != self.failures@[j].round
    }

    /// The puts of the batch that collects writes.
    pub closed spec fn batch(&self) -> Seq<PutView> {
        self.write_batch@
    }

    /// The number of batches flushed so far, which is the number of the batch that collects writes.
    pub closed spec fn flushed(&self) -> u64 {
        self.round
    }

    /// Which write the flush under way waits for.
    pub closed spec fn state(&self) -> FlushState {
        self.flushing
    }

    /// The configured bound of a batch.
    pub closed spec fn max_writes(&self) -> usize {
        self.max_write_queries
    }

    /// The outcome of the batch number `round`.
    pub closed spec fn result_of(&self, round: u64) -> PutResult {
        outcome(self.failures@, self.round, round)
    }

    /// The outcome of a batch that has not been flushed is not known yet.
    pub proof fn lemma_result_not_yet(&self, round: u64)
        ensures
            round >= self.flushed() <==> self.result_of(round) == PutResult::NotYet,
    {
    }

    /// A layer with an empty batch and no flush under way.
    pub fn new(max_write_queries: usize) -> (env: Self)
        ensures
            env.wf(),
            env.batch() == Seq::<PutView>::empty(),
            env.flushed() == 0,
            env.state() == FlushState::Idle,
            env.max_writes() == max_write_queries,
    {
        Environment {
            max_write_queries,
            write_batch: WriteBatch::new(),
            flushing: FlushState::Idle,
            round: 0,
            failures: Vec::new(),
        }
    }

    /// Whether a flush is under way.
    pub fn is_flushing(&self) -> (b: bool)
        ensures
            b == (self.state() != FlushState::Idle),
    {
        match self.flushing {
            FlushState::Idle => false,
            _ => true,
        }
    }

    /// The number of batches flushed so far.
    pub fn rounds(&self) -> (n: u64)
        ensures
            n == self.flushed(),
    {
        self.round
    }

    /// The outcome of the batch number `round`.
    pub fn result(&self, round: u64) -> (r: PutResult)
        requires
            self.wf(),
        ensures
            r == self.result_of(round),
    {
        if round >= self.round {
            return PutResult::NotYet;
        }
        let mut i: usize = 0;
        while i < self.failures.len()
            invariant
                i <= self.failures@.len(),
                self.wf(),
                forall|j: int| 0 <= j < i ==> (#[trigger] self.failures@[j]).round != round,
            decreases self.failures@.len() - i,
        {
            if self.failures[i].round == round {
                proof {
                    let k = choose|k: int|
                        0 <= k < self.failures@.len() && (#[trigger] self.failures@[k]).round
                            == round;
                    if k < i {
                        assert(self.failures@[k].round != self.failures@[i as int].round);
                    } else if i < k {
                        assert(self.failures@[i as int].round != self.failures@[k].round);
                    }
                }
                return PutResult::Error(self.failures[i].error);
            }
            i = i + 1;
        }
        PutResult::Succeeded
    }

    /// Appends a write of the record `id` to the batch; a part without a
    /// byte is not written. It returns the query for the outcome, and whether
    /// the batch is to be flushed at once: it is, unless it holds more writes
    /// than the configured bound.
    pub fn put(&mut self, id: &Id, intrinsic: &[u8], extrinsic: &[u8]) -> (r: (PutQuery, bool))
        requires
            old(self).wf(),
            old(self).state() == FlushState::Idle,
        ensures
            final(self).wf(),
            final(self).state() == FlushState::Idle,
            final(self).flushed() == old(self).flushed(),
            final(self).max_writes() == old(self).max_writes(),
            forall|round: u64| final(self).result_of(round) == old(self).result_of(round),
            final(self).batch() == if intrinsic@.len() > 0 || extrinsic@.len() > 0 {
                old(self).batch().push(
                    PutView { id: *id, intrinsic: intrinsic@, extrinsic: extrinsic@ },
                )
            } else {
                old(self).batch()
            },
            r.0.spec_round() == old(self).flushed(),
            r.1 == (final(self).batch().len() <= old(self).max_writes()),
    {
        self.write_batch.put(id, intrinsic, extrinsic);
        let flush = self.write_batch.len() <= self.max_write_queries;
        (PutQuery { round: self.round }, flush)
    }

    /// Starts a flush: hands out the entries for the extrinsic store, which
    /// is written first.
    pub fn begin_flush(&mut self) -> (entries: Vec<Entry>)
        requires
            old(self).wf(),
            old(self).state() == FlushState::Idle,
        ensures
            final(self).wf(),
            final(self).state() == FlushState::Extrinsic,
            final(self).batch() == old(self).batch(),
            final(self).flushed() == old(self).flushed(),
            final(self).max_writes() == old(self).max_writes(),
            forall|round: u64| final(self).result_of(round) == old(self).result_of(round),
            entries_view(entries@) == extrinsic_entries(old(self).batch()),
    {
        self.flushing = FlushState::Extrinsic;
        self.write_batch.extrinsic()
    }

    /// Takes the outcome of the write of the extrinsic store. After a
    /// success it hands out the entries for the intrinsic store. After a
    /// failure the flush is over: the batch has failed and is emptied.
    pub fn extrinsic_written(&mut self, result: Result<(), Error>) -> (entries: Option<Vec<Entry>>)
        requires
            old(self).wf(),
            old(self).state() == FlushState::Extrinsic,
            old(self).flushed() < u64::MAX,
        ensures
            final(self).wf(),
            final(self).max_writes() == old(self).max_writes(),
            forall|round: u64|
                round < old(self).flushed() ==> final(self).result_of(round) == old(self).result_of(
                    round,
                ),
            match result {
                Ok(_) => {
                    &&& entries is Some
                    &&& entries_view(entries->Some_0@) == intrinsic_entries(old(self).batch())
                    &&& final(self).state() == FlushState::Intrinsic
                    &&& final(self).batch() == old(self).batch()
                    &&& final(self).flushed() == old(self).flushed()
                },
                Err(e) => {
                    &&& entries is None
                    &&& final(self).state() == FlushState::Idle
                    &&& final(self).batch() == Seq::<PutView>::empty()
                    &&& final(self).flushed() == old(self).flushed() + 1
                    &&& final(self).result_of(old(self).flushed()) == PutResult::Error(e)
                },
            },
    {
        match result {
            Ok(_) => {
                self.flushing = FlushState::Intrinsic;
                Some(self.write_batch.intrinsic())
            },
            Err(e) => {
                self.finish(Err(e));
                None
            },
        }
    }

    /// Takes the outcome of the write of the intrinsic store, which ends the
    /// flush: the batch has succeeded or failed, and is emptied.
    pub fn intrinsic_written(&mut self, result: Result<(), Error>)
        requires
            old(self).wf(),
            old(self).state() == FlushState::Intrinsic,
            old(self).flushed() < u64::MAX,
        ensures
            final(self).wf(),
            final(self).max_writes() == old(self).max_writes(),
            final(self).state() == FlushState::Idle,
            final(self).batch() == Seq::<PutView>::empty(),
            final(self).flushed() == old(self).flushed() + 1,
            forall|round: u64|
                round < old(self).flushed() ==> final(self).result_of(round) == old(self).result_of(
                    round,
                ),
            final(self).result_of(old(self).flushed()) == match result {
                Ok(_) => PutResult::Succeeded,
                Err(e) => PutResult::Error(e),
            },
    {
        self.finish(result);
    }

    /// Ends the flush with `result` as the outcome of the batch.
    fn finish(&mut self, result: Result<(), Error>)
        requires
            old(self).wf(),
            old(self).flushed() < u64::MAX,
        ensures
            final(self).wf(),
            final(self).max_writes() == old(self).max_writes(),
            final(self).state() == FlushState::Idle,
            final(self).batch() == Seq::<PutView>::empty(),
            final(self).flushed() == old(self).flushed() + 1,
            forall|round: u64|
                round < old(self).flushed() ==> final(self).result_of(round) == old(self).result_of(
                    round,
                ),
            final(self).result_of(old(self).flushed()) == match result {
                Ok(_) => PutResult::Succeeded,
                Err(e) => PutResult::Error(e),
            },
    {
        let ghost before = self.failures@;
        let ghost this = self.round;
        match result {
            Ok(_) => {},
            Err(e) => {
                self.failures.push(Failure { round: self.round, error: e });
            },
        }
        self.round = self.round + 1;
        self.write_batch.clear();
        self.flushing = FlushState::Idle;
        proof {
            let after = self.failures@;
            assert forall|i: int| 0 <= i < before.len() implies after[i] == before[i] by {}
            assert forall|i: int| 0 <= i < before.len() implies (#[trigger] before[i]).round
                != this by {}
            assert forall|round: u64| round < this implies outcome(after, self.round, round)
                == outcome(before, this, round) by {
                if exists|i: int| 0 <= i < before.len() && (#[trigger] before[i]).round == round {
                    let i = choose|i: int|
                        0 <= i < before.len() && (#[trigger] before[i]).round == round;
                    assert(after[i].round == round);
                    let k = choose|k: int|
                        0 <= k < after.len() && (#[trigger] after[k]).round == round;
                    if k < i {
                        assert(after[k].round != after[i].round);
                    } else if i < k {
                        assert(after[i].round != after[k].round);
                    }
                } else {
                    assert forall|k: int| 0 <= k < after.len() implies (#[trigger] after[k]).round
                        != round by {
                        if k < before.len() {
                            assert(before[k].round != round);
                        }
                    }
                }
            }
            match result {
                Ok(_) => {
                    assert forall|k: int| 0 <= k < after.len() implies (#[trigger] after[k]).round
                        != this by {
                        assert(before[k].round != this);
                    }
                },
                Err(e) => {
                    let n = before.len() as int;
                    assert(after[n].round == this);
                    let k = choose|k: int|
                        0 <= k < after.len() && (#[trigger] after[k]).round == this;
                    if k < n {
                        assert(before[k].round != this);
                    }
                },
            }
        }
    }
}

/// The query for the outcome of a write.
pub struct PutQuery {
    round: u64,
}

impl PutQuery {
    /// The number of the batch that took the write.
    pub closed spec fn spec_round(&self) -> u64 {
        self.round
    }

    /// Appends a write of the record `id` to the batch of `env`. It returns
    /// the query for the outcome, and whether the batch is to be flushed at once.
    pub fn new(id: &Id, intrinsic: &[u8], extrinsic: &[u8], env: &mut Environment) -> (r: (
        PutQuery,
        bool,
    ))
        requires
            old(env).wf(),
            old(env).state() == FlushState::Idle,
        ensures
            final(env).wf(),
            final(env).state() == FlushState::Idle,
            final(env).flushed() == old(env).flushed(),
            final(env).max_writes() == old(env).max_writes(),
            forall|round: u64| final(env).result_of(round) == old(env).result_of(round),
            final(env).batch() == if intrinsic@.len() > 0 || extrinsic@.len() > 0 {
                old(env).batch().push(
                    PutView { id: *id, intrinsic: intrinsic@, extrinsic: extrinsic@ },
                )
            } else {
                old(env).batch()
            },
            r.0.spec_round() == old(env).flushed(),
            r.1 == (final(env).batch().len() <= old(env).max_writes()),
    {
        env.put(id, intrinsic, extrinsic)
    }

    /// The number of the batch that took the write.
    pub fn round(&self) -> (n: u64)
        ensures
            n == self.spec_round(),
    {
        self.round
    }

}

/// A query for the outcome of a write.
pub trait WriteQuery {
    /// The outcome of the write, as `env` knows it.
    spec fn result_in(&self, env: &Environment) -> PutResult;

    /// Whether the write has been flushed.
    fn is_finished(&self, env: &Environment) -> (b: bool)
        requires
            env.wf(),
        ensures
            b == (self.result_in(env) != PutResult::NotYet),
    ;

    /// The outcome of the write, once it has been flushed.
    fn wait(&self, env: &Environment) -> (r: Result<(), Error>)
        requires
            env.wf(),
            self.result_in(env) != PutResult::NotYet,
        ensures
            r == match self.result_in(env) {
                PutResult::Error(e) => Err::<(), Error>(e),
                _ => Ok::<(), Error>(()),
            },
    ;

    /// The error of the write, where it has been flushed and has failed.
    fn error(&self, env: &Environment) -> (e: Option<Error>)
        requires
            env.wf(),
        ensures
            e == match self.result_in(env) {
                PutResult::Error(e) => Some(e),
                _ => None,
            },
    ;
}

impl WriteQuery for PutQuery {
    open spec fn result_in(&self, env: &Environment) -> PutResult {
        env.result_of(self.spec_round())
    }

    fn is_finished(&self, env: &Environment) -> (b: bool) {
        proof {
            env.lemma_result_not_yet(self.spec_round());
        }
        self.round < env.rounds()
    }

    fn wait(&self, env: &Environment) -> (r: Result<(), Error>) {
        match env.result(self.round) {
            PutResult::Error(e) => Err(e),
            _ => Ok(()),
        }
    }

    fn error(&self, env: &Environment) -> (e: Option<Error>) {
        match env.result(self.round) {
            PutResult::Error(e) => Some(e),
            _ => None,
        }
    }
}

/// Writes both parts of `acid`. It returns the query for the outcome, and
/// whether the batch is to be flushed at once.
pub fn insert<A: Acid>(acid: &A, env: &mut Environment) -> (r: (PutQuery, bool))
    requires
        acid.wf(),
        old(env).wf(),
        old(env).state() == FlushState::Idle,
    ensures
        final(env).wf(),
        final(env).state() == FlushState::Idle,
        final(env).flushed() == old(env).flushed(),
        final(env).max_writes() == old(env).max_writes(),
        forall|round: u64| final(env).result_of(round) == old(env).result_of(round),
        final(env).batch() == if acid.spec_intrinsic().len() > 0 || acid.spec_extrinsic().len()
            > 0 {
            old(env).batch().push(
                PutView {
                    id: acid.spec_id(),
                    intrinsic: acid.spec_intrinsic(),
                    extrinsic: acid.spec_extrinsic(),
                },
            )
        } else {
            old(env).batch()
        },
        r.0.spec_round() == old(env).flushed(),
        r.1 == (final(env).batch().len() <= old(env).max_writes()),
{
    let intrinsic = acid.intrinsic();
    let extrinsic = acid.extrinsic();
    env.put(acid.id(), intrinsic.as_slice(), extrinsic.as_slice())
}

/// Writes the extrinsic part of `acid` alone; the intrinsic entry stays as
/// it is. It returns the query for the outcome, and whether the batch is to
/// be flushed at once.
pub fn update<A: Acid>(acid: &A, env: &mut Environment) -> (r: (PutQuery, bool))
    requires
        acid.wf(),
        old(env).wf(),
        old(env).state() == FlushState::Idle,
    ensures
        final(env).wf(),
        final(env).state() == FlushState::Idle,
        final(env).flushed() == old(env).flushed(),
        final(env).max_writes() == old(env).max_writes(),
        forall|round: u64| final(env).result_of(round) == old(env).result_of(round),
        final(env).batch() == if acid.spec_extrinsic().len() > 0 {
            old(env).batch().push(
                PutView {
                    id: acid.spec_id(),
                    intrinsic: Seq::empty(),
                    extrinsic: acid.spec_extrinsic(),
                },
            )
        } else {
            old(env).batch()
        },
        r.0.spec_round() == old(env).flushed(),
        r.1 == (final(env).batch().len() <= old(env).max_writes()),
{
    let extrinsic = acid.extrinsic();
    let nothing: Vec<u8> = Vec::new();
    env.put(acid.id(), nothing.as_slice(), extrinsic.as_slice())
}

/// What a read has come to.
pub enum FetchResult {
    /// Nothing has been read.
    NotYet,
    /// The intrinsic data has been read and is there; the extrinsic data is still to be read.
    Intrinsic(Vec<u8>),
    /// The store has no record under the id.
    NotFound,
    /// The record.
    Found(Vec<u8>, Vec<u8>),
    /// A store failed.
    Failed(Error),
}

/// What a read query asks for next.
#[derive(Debug, Clone, Copy, PartialEq, Eq, Structural)]
pub enum FetchStep {
    /// The entry of the intrinsic store is to be read.
    ReadIntrinsic,
    /// The entry of the extrinsic store is to be read.
    ReadExtrinsic,
    /// Nothing: the query has finished.
    Finished,
}

/// What a finished read stands for: the row, nothing, or an error.
pub open spec fn fetched(intrinsic: Result<Seq<u8>, Error>, extrinsic: Result<Seq<u8>, Error>)
    -> Result<Option<(Seq<u8>, Seq<u8>)>, Error> {
    match intrinsic {
        Err(e) => Err(e),
        Ok(intrinsic) => if intrinsic.len() == 0 {
            Ok(None)
        } else {
            match extrinsic {
                Err(e) => Err(e),
                Ok(extrinsic) => Ok(Some((intrinsic, extrinsic))),
            }
        },
    }
}

/// What a read returned, with the bytes as a sequence.
pub open spec fn read_view(result: Result<Vec<u8>, Error>) -> Result<Seq<u8>, Error> {
    match result {
        Ok(bytes) => Ok(bytes@),
        Err(e) => Err(e),
    }
}

/// A record that was written and flushed is fetched: where `put` is the last
/// put of a batch and writes intrinsic data, reading the two stores after the
/// flush gives the row of `put`. This leaves out a put without extrinsic data
/// over an extrinsic entry that is there already, which the flush does not
/// touch.
pub proof fn lemma_flushed_record_is_fetched(
    intrinsic: Store,
    extrinsic: Store,
    puts: Seq<PutView>,
    put: PutView,
)
    requires
        put.intrinsic.len() > 0,
        put.extrinsic.len() > 0 || !written(extrinsic, extrinsic_entries(puts)).contains_key(put.id),
    ensures
        fetched(
            Ok(stored(written(intrinsic, intrinsic_entries(puts.push(put))), put.id)),
            Ok(stored(written(extrinsic, extrinsic_entries(puts.push(put))), put.id)),
        ) == Ok::<Option<(Seq<u8>, Seq<u8>)>, Error>(Some((put.intrinsic, put.extrinsic))),
        forall|id: Id|
            !intrinsic.contains_key(id) ==> fetched(
                Ok(stored(intrinsic, id)),
                Ok(stored(extrinsic, id)),
            ) == Ok::<Option<(Seq<u8>, Seq<u8>)>, Error>(None),
{
    batch::lemma_insert_then_fetch(intrinsic, extrinsic, puts, put);
}

/// The query for a record: it reads the intrinsic entry, and the extrinsic
/// entry if the intrinsic one is there.
pub struct FetchQuery {
    id: Id,
    result: FetchResult,
}

impl FetchQuery {
    /// The id that the query looks for.
    pub closed spec fn spec_id(&self) -> Id {
        self.id
    }

    /// What the query has come to.
    pub closed spec fn state(&self) -> FetchResult {
        self.result
    }

    /// What the query asks for next.
    pub open spec fn spec_step(&self) -> FetchStep {
        match self.state() {
            FetchResult::NotYet => FetchStep::ReadIntrinsic,
            FetchResult::Intrinsic(_) => FetchStep::ReadExtrinsic,
            _ => FetchStep::Finished,
        }
    }

    /// The outcome of a finished query.
    pub open spec fn outcome(&self) -> Result<Option<(Seq<u8>, Seq<u8>)>, Error> {
        match self.state() {
            FetchResult::Found(intrinsic, extrinsic) => Ok(Some((intrinsic@, extrinsic@))),
            FetchResult::Failed(e) => Err(e),
            _ => Ok(None),
        }
    }

    /// A query for the record `id`, with nothing read.
    pub fn new(id: &Id) -> (query: Self)
        ensures
            query.spec_id() == *id,
            query.state() is NotYet,
    {
        FetchQuery { id: *id, result: FetchResult::NotYet }
    }

    /// The id that the query looks for.
    pub fn id(&self) -> (id: &Id)
        ensures
            *id == self.spec_id(),
    {
        &self.id
    }

    /// What the query asks for next.
    pub fn step(&self) -> (s: FetchStep)
        ensures
            s == self.spec_step(),
    {
        match &self.result {
            FetchResult::NotYet => FetchStep::ReadIntrinsic,
            FetchResult::Intrinsic(_) => FetchStep::ReadExtrinsic,
            _ => FetchStep::Finished,
        }
    }

    /// Takes what the read of the intrinsic store returned; no byte means that
    /// the store has no entry under the id.
    pub fn intrinsic_read(&mut self, result: Result<Vec<u8>, Error>)
        requires
            old(self).spec_step() == FetchStep::ReadIntrinsic,
        ensures
            final(self).spec_id() == old(self).spec_id(),
            match result {
                Err(e) => final(self).state() == FetchResult::Failed(e),
                Ok(bytes) => if bytes@.len() == 0 {
                    final(self).state() is NotFound
                } else {
                    final(self).state() == FetchResult::Intrinsic(bytes)
                },
            },
            final(self).spec_step() == FetchStep::Finished ==> forall|
                extrinsic: Result<Seq<u8>, Error>,
            | final(self).outcome() == #[trigger] fetched(read_view(result), extrinsic),
    {
        self.result = match result {
            Err(e) => FetchResult::Failed(e),
            Ok(bytes) => if bytes.len() == 0 {
                FetchResult::NotFound
            } else {
                FetchResult::Intrinsic(bytes)
            },
        };
    }

    /// Takes what the read of the extrinsic store returned.
    pub fn extrinsic_read(&mut self, result: Result<Vec<u8>, Error>)
        requires
            old(self).spec_step() == FetchStep::ReadExtrinsic,
        ensures
            final(self).spec_id() == old(self).spec_id(),
            final(self).spec_step() == FetchStep::Finished,
            match result {
                Err(e) => final(self).state() == FetchResult::Failed(e),
                Ok(bytes) => final(self).state() == FetchResult::Found(
                    old(self).state()->Intrinsic_0,
                    bytes,
                ),
            },
            old(self).state()->Intrinsic_0@.len() > 0 ==> final(self).outcome() == fetched(
                Ok(old(self).state()->Intrinsic_0@),
                read_view(result),
            ),
    {
        let mut held = FetchResult::NotYet;
        std::mem::swap(&mut self.result, &mut held);
        self.result = match (held, result) {
            (_, Err(e)) => FetchResult::Failed(e),
            (FetchResult::Intrinsic(intrinsic), Ok(bytes)) => FetchResult::Found(intrinsic, bytes),
            (_, Ok(_)) => FetchResult::NotFound,
        };
    }

}

/// A query for a record.
pub trait ReadQuery {
    /// The query has finished.
    spec fn finished(&self) -> bool;

    /// What the query has found: the row, nothing, or the error of a store.
    /// A query that has not finished has found nothing.
    spec fn found(&self) -> Result<Option<(Seq<u8>, Seq<u8>)>, Error>;

    /// Whether the query has finished.
    fn is_finished(&self) -> (b: bool)
        ensures
            b == self.finished(),
    ;

    /// The outcome of the finished query: the row, `None` where the store
    /// has no record under the id, or the error.
    fn wait(&self) -> (r: Result<Option<Row>, Error>)
        requires
            self.finished(),
        ensures
            match r {
                Err(e) => self.found() == Err::<Option<(Seq<u8>, Seq<u8>)>, Error>(e),
                Ok(None) => self.found() == Ok::<Option<(Seq<u8>, Seq<u8>)>, Error>(None),
                Ok(Some(row)) => self.found() == Ok::<Option<(Seq<u8>, Seq<u8>)>, Error>(
                    Some((row.intrinsic@, row.extrinsic@)),
                ),
            },
    ;

    /// The error of the query, where it has finished and failed.
    fn error(&self) -> (e: Option<Error>)
        ensures
            e == match self.found() {
                Err(e) => Some(e),
                _ => None,
            },
    ;
}

impl ReadQuery for FetchQuery {
    open spec fn finished(&self) -> bool {
        self.spec_step() == FetchStep::Finished
    }

    open spec fn found(&self) -> Result<Option<(Seq<u8>, Seq<u8>)>, Error> {
        self.outcome()
    }

    fn is_finished(&self) -> (b: bool) {
        match &self.result {
            FetchResult::NotYet => false,
            FetchResult::Intrinsic(_) => false,
            _ => true,
        }
    }

    fn wait(&self) -> (r: Result<Option<Row>, Error>) {
        match &self.result {
            FetchResult::Failed(e) => Err(*e),
            FetchResult::Found(intrinsic, extrinsic) => Ok(
                Some(
                    Row {
                        intrinsic: vstd::slice::slice_to_vec(intrinsic.as_slice()),
                        extrinsic: vstd::slice::slice_to_vec(extrinsic.as_slice()),
                    },
                ),
            ),
            _ => Ok(None),
        }
    }

    fn error(&self) -> (e: Option<Error>) {
        match &self.result {
            FetchResult::Failed(e) => Some(*e),
            _ => None,
        }
    }
}

/// A query for the record `id`.
pub fn fetch(id: &Id) -> (query: FetchQuery)
    ensures
        query.spec_id() == *id,
        query.state() is NotYet,
{
    FetchQuery::new(id)
}

} // verus!

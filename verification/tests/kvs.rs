use mouse::data_types::{Acid, Blob, CryptoHash, Id};
use mouse::kvs::{
    fetch, insert, update, Entry, Environment, Error, FetchStep, PutQuery, PutResult, ReadQuery,
    Row, WriteQuery,
};
use std::collections::HashMap;

/// The parts of a record, as they are written.
struct Plain {
    id: Id,
    intrinsic: Vec<u8>,
    extrinsic: Vec<u8>,
}

impl Plain {
    fn new(intrinsic: &[u8], extrinsic: &[u8]) -> Self {
        Plain {
            id: Id::calculate(intrinsic),
            intrinsic: intrinsic.to_vec(),
            extrinsic: extrinsic.to_vec(),
        }
    }

    fn id(&self) -> &Id {
        &self.id
    }
}

fn write(a: &Plain, env: &mut Environment) -> (PutQuery, bool) {
    env.put(&a.id, &a.intrinsic, &a.extrinsic)
}

fn write_extrinsic(a: &Plain, env: &mut Environment) -> (PutQuery, bool) {
    env.put(&a.id, &[], &a.extrinsic)
}

/// The two stores, in memory. A store can be told to fail.
struct Stores {
    intrinsic: HashMap<Id, Vec<u8>>,
    extrinsic: HashMap<Id, Vec<u8>>,
    intrinsic_fails: bool,
    extrinsic_fails: bool,
    writes: Vec<&'static str>,
}

impl Stores {
    fn new() -> Self {
        Stores {
            intrinsic: HashMap::new(),
            extrinsic: HashMap::new(),
            intrinsic_fails: false,
            extrinsic_fails: false,
            writes: Vec::new(),
        }
    }

    fn write_intrinsic(&mut self, entries: Vec<Entry>) -> Result<(), Error> {
        self.writes.push("intrinsic");
        if self.intrinsic_fails {
            return Err(Error { code: 5 });
        }
        for e in entries {
            self.intrinsic.insert(e.key, e.value);
        }
        Ok(())
    }

    fn write_extrinsic(&mut self, entries: Vec<Entry>) -> Result<(), Error> {
        self.writes.push("extrinsic");
        if self.extrinsic_fails {
            return Err(Error { code: 5 });
        }
        for e in entries {
            self.extrinsic.insert(e.key, e.value);
        }
        Ok(())
    }

    fn flush(&mut self, env: &mut Environment) {
        let entries = env.begin_flush();
        let written = self.write_extrinsic(entries);
        match env.extrinsic_written(written) {
            Some(entries) => {
                let written = self.write_intrinsic(entries);
                env.intrinsic_written(written);
            }
            None => {}
        }
    }

    fn put(&mut self, put: (PutQuery, bool), env: &mut Environment) -> PutQuery {
        let (query, flush_now) = put;
        if flush_now {
            self.flush(env);
        }
        query
    }

    fn wait(&mut self, query: &PutQuery, env: &mut Environment) -> Result<(), Error> {
        if !query.is_finished(env) {
            self.flush(env);
        }
        query.wait(env)
    }

    fn read(&self, id: &Id) -> Result<Option<Row>, Error> {
        let mut query = fetch(id);
        loop {
            match query.step() {
                FetchStep::ReadIntrinsic => {
                    let bytes = self.intrinsic.get(query.id()).cloned().unwrap_or_default();
                    query.intrinsic_read(Ok(bytes));
                }
                FetchStep::ReadExtrinsic => {
                    let bytes = self.extrinsic.get(query.id()).cloned().unwrap_or_default();
                    query.extrinsic_read(Ok(bytes));
                }
                FetchStep::Finished => break,
            }
        }
        query.wait()
    }
}

#[test]
fn kvs_round_trip() {
    let mut env = Environment::new(128);
    let mut stores = Stores::new();
    let a = Plain::new(&[0x01, 0x02], &[0xAA]);

    let query = stores.put(write(&a, &mut env), &mut env);
    assert_eq!(Ok(()), stores.wait(&query, &mut env));
    assert_eq!(None, query.error(&env));

    let row = stores.read(a.id()).unwrap().unwrap();
    assert_eq!(vec![0x01, 0x02], row.intrinsic);
    assert_eq!(vec![0xAA], row.extrinsic);

    let unknown = Id::calculate(b"unknown");
    assert_eq!(true, stores.read(&unknown).unwrap().is_none());
}

#[test]
fn kvs_batch_coalescing() {
    // A batch of 4 writes at most is flushed by the call that fills it.
    let mut env = Environment::new(4);
    let mut stores = Stores::new();
    let acids: Vec<Plain> = (0..4u8).map(|i| Plain::new(&[i, 1], &[i, 2])).collect();

    let mut queries = Vec::new();
    for a in &acids {
        let (query, flush_now) = write(a, &mut env);
        assert_eq!(true, flush_now);
        queries.push(stores.put((query, flush_now), &mut env));
    }
    for (a, query) in acids.iter().zip(queries.iter()) {
        assert_eq!(true, query.is_finished(&env));
        assert_eq!(Ok(()), stores.wait(query, &mut env));
        let row = stores.read(a.id()).unwrap().unwrap();
        assert_eq!(a.intrinsic, row.intrinsic);
        assert_eq!(a.extrinsic, row.extrinsic);
    }
}

#[test]
fn a_batch_beyond_the_bound_waits_for_a_wait() {
    let mut env = Environment::new(0);
    let mut stores = Stores::new();
    let acids: Vec<Plain> = (0..4u8).map(|i| Plain::new(&[i, 1], &[i, 2])).collect();

    let mut queries = Vec::new();
    for a in &acids {
        let (query, flush_now) = write(a, &mut env);
        assert_eq!(false, flush_now);
        queries.push(stores.put((query, flush_now), &mut env));
    }
    // Nothing has been written, and the four writes share one batch.
    assert_eq!(true, stores.writes.is_empty());
    for query in &queries {
        assert_eq!(false, query.is_finished(&env));
        assert_eq!(None, query.error(&env));
        assert_eq!(queries[0].round(), query.round());
    }
    assert_eq!(true, stores.read(acids[0].id()).unwrap().is_none());

    // The first wait flushes the batch for all of them.
    assert_eq!(Ok(()), stores.wait(&queries[2], &mut env));
    assert_eq!(vec!["extrinsic", "intrinsic"], stores.writes);
    for (a, query) in acids.iter().zip(queries.iter()) {
        assert_eq!(true, query.is_finished(&env));
        assert_eq!(Ok(()), stores.wait(query, &mut env));
        let row = stores.read(a.id()).unwrap().unwrap();
        assert_eq!(a.intrinsic, row.intrinsic);
        assert_eq!(a.extrinsic, row.extrinsic);
    }
    assert_eq!(vec!["extrinsic", "intrinsic"], stores.writes);
}

#[test]
fn a_flush_writes_the_extrinsic_store_first() {
    let mut env = Environment::new(128);
    let a = Plain::new(&[1], &[2]);
    let (_, flush_now) = write(&a, &mut env);
    assert_eq!(true, flush_now);
    assert_eq!(false, env.is_flushing());

    let entries = env.begin_flush();
    assert_eq!(true, env.is_flushing());
    assert_eq!(1, entries.len());
    assert_eq!(a.id, entries[0].key);
    assert_eq!(vec![2], entries[0].value);

    let entries = env.extrinsic_written(Ok(())).unwrap();
    assert_eq!(true, env.is_flushing());
    assert_eq!(1, entries.len());
    assert_eq!(a.id, entries[0].key);
    assert_eq!(vec![1], entries[0].value);

    env.intrinsic_written(Ok(()));
    assert_eq!(false, env.is_flushing());
    assert_eq!(1, env.rounds());
    assert_eq!(PutResult::Succeeded, env.result(0));
    assert_eq!(PutResult::NotYet, env.result(1));
}

#[test]
fn an_error_of_the_extrinsic_store_ends_the_flush() {
    let mut env = Environment::new(0);
    let mut stores = Stores::new();
    stores.extrinsic_fails = true;

    let a = Plain::new(&[1], &[2]);
    let b = Plain::new(&[3], &[4]);
    let first = stores.put(write(&a, &mut env), &mut env);
    let second = stores.put(write(&b, &mut env), &mut env);

    // The error is shared by all the writes of the batch.
    assert_eq!(Err(Error { code: 5 }), stores.wait(&first, &mut env));
    assert_eq!(Err(Error { code: 5 }), stores.wait(&second, &mut env));
    assert_eq!(Some(Error { code: 5 }), first.error(&env));
    assert_eq!(true, second.is_finished(&env));

    // The intrinsic store was not written.
    assert_eq!(vec!["extrinsic"], stores.writes);
    assert_eq!(true, stores.read(a.id()).unwrap().is_none());

    // The next batch starts afresh.
    stores.extrinsic_fails = false;
    let third = stores.put(write(&a, &mut env), &mut env);
    assert_eq!(false, third.is_finished(&env));
    assert_eq!(Ok(()), stores.wait(&third, &mut env));
    assert_eq!(Err(Error { code: 5 }), first.wait(&env));
    assert_eq!(true, stores.read(a.id()).unwrap().is_some());
    assert_eq!(true, stores.read(b.id()).unwrap().is_none());
}

#[test]
fn an_error_of_the_intrinsic_store_fails_the_batch() {
    let mut env = Environment::new(128);
    let mut stores = Stores::new();
    stores.intrinsic_fails = true;

    let a = Plain::new(&[1], &[2]);
    let query = stores.put(write(&a, &mut env), &mut env);
    assert_eq!(Err(Error { code: 5 }), stores.wait(&query, &mut env));
    assert_eq!(vec!["extrinsic", "intrinsic"], stores.writes);

    // The extrinsic entry is there, the record is not.
    assert_eq!(Some(&vec![2]), stores.extrinsic.get(a.id()));
    assert_eq!(true, stores.read(a.id()).unwrap().is_none());
}

#[test]
fn update_writes_the_extrinsic_data_alone() {
    let mut env = Environment::new(128);
    let mut stores = Stores::new();
    let a = Plain::new(&[1, 2], &[0xAA]);
    let query = stores.put(write(&a, &mut env), &mut env);
    assert_eq!(Ok(()), stores.wait(&query, &mut env));

    let changed = Plain {
        id: a.id,
        intrinsic: vec![9, 9],
        extrinsic: vec![0xBB, 0xCC],
    };
    let (_, flush_now) = write_extrinsic(&changed, &mut env);
    assert_eq!(true, flush_now);
    let entries = env.begin_flush();
    assert_eq!(1, entries.len());
    stores.write_extrinsic(entries).unwrap();
    let entries = env.extrinsic_written(Ok(())).unwrap();
    assert_eq!(true, entries.is_empty());
    stores.write_intrinsic(entries).unwrap();
    env.intrinsic_written(Ok(()));

    let row = stores.read(&a.id).unwrap().unwrap();
    assert_eq!(vec![1, 2], row.intrinsic);
    assert_eq!(vec![0xBB, 0xCC], row.extrinsic);
}

#[test]
fn a_record_without_extrinsic_data_has_an_empty_one() {
    let mut env = Environment::new(128);
    let mut stores = Stores::new();
    let blob = Blob::from_bytes(b"blob");

    let query = stores.put(insert(&blob, &mut env), &mut env);
    assert_eq!(Ok(()), stores.wait(&query, &mut env));
    assert_eq!(false, stores.extrinsic.contains_key(blob.id()));

    let row = stores.read(blob.id()).unwrap().unwrap();
    assert_eq!(blob.intrinsic(), row.intrinsic);
    assert_eq!(true, row.extrinsic.is_empty());
}

#[test]
fn a_write_without_a_byte_does_not_count() {
    let mut env = Environment::new(0);
    let empty = Plain::new(&[], &[]);
    let (query, flush_now) = write(&empty, &mut env);
    // The batch holds no write: it is within any bound.
    assert_eq!(true, flush_now);
    assert_eq!(0, query.round());

    let entries = env.begin_flush();
    assert_eq!(true, entries.is_empty());
    let entries = env.extrinsic_written(Ok(())).unwrap();
    assert_eq!(true, entries.is_empty());
    env.intrinsic_written(Ok(()));
    assert_eq!(Ok(()), query.wait(&env));

    // An update of a record without extrinsic data writes nothing either.
    let blob = Blob::from_bytes(b"blob");
    let (_, flush_now) = update(&blob, &mut env);
    assert_eq!(true, flush_now);
    assert_eq!(true, env.begin_flush().is_empty());
}

#[test]
fn a_fetch_reads_the_intrinsic_entry_first() {
    let id = Id::calculate(b"id");
    let mut query = fetch(&id);
    assert_eq!(&id, query.id());
    assert_eq!(false, query.is_finished());
    assert_eq!(FetchStep::ReadIntrinsic, query.step());
    assert_eq!(None, query.error());

    query.intrinsic_read(Ok(vec![1]));
    assert_eq!(false, query.is_finished());
    assert_eq!(FetchStep::ReadExtrinsic, query.step());

    query.extrinsic_read(Ok(vec![]));
    assert_eq!(true, query.is_finished());
    assert_eq!(FetchStep::Finished, query.step());
    let row = query.wait().unwrap().unwrap();
    assert_eq!(vec![1], row.intrinsic);
    assert_eq!(true, row.extrinsic.is_empty());
}

#[test]
fn a_fetch_without_an_intrinsic_entry_finds_nothing() {
    let id = Id::calculate(b"id");
    let mut query = fetch(&id);
    query.intrinsic_read(Ok(vec![]));
    assert_eq!(true, query.is_finished());
    assert_eq!(None, query.error());
    assert_eq!(true, query.wait().unwrap().is_none());
}

#[test]
fn a_fetch_reports_the_error_of_a_store() {
    let id = Id::calculate(b"id");

    let mut query = fetch(&id);
    query.intrinsic_read(Err(Error { code: 2 }));
    assert_eq!(true, query.is_finished());
    assert_eq!(Some(Error { code: 2 }), query.error());
    assert_eq!(Error { code: 2 }, query.wait().err().unwrap());

    let mut query = fetch(&id);
    query.intrinsic_read(Ok(vec![1]));
    query.extrinsic_read(Err(Error { code: 5 }));
    assert_eq!(true, query.is_finished());
    assert_eq!(Some(Error { code: 5 }), query.error());
    assert_eq!(Error { code: 5 }, query.wait().err().unwrap());
}

#[test]
fn the_last_write_of_a_batch_wins() {
    let mut env = Environment::new(0);
    let mut stores = Stores::new();
    let old = Plain::new(&[1], &[2]);
    let new = Plain {
        id: old.id,
        intrinsic: vec![1],
        extrinsic: vec![3],
    };
    let first = stores.put(write(&old, &mut env), &mut env);
    let _ = stores.put(write(&new, &mut env), &mut env);
    assert_eq!(Ok(()), stores.wait(&first, &mut env));

    let row = stores.read(&old.id).unwrap().unwrap();
    assert_eq!(vec![3], row.extrinsic);
}

#[test]
fn a_put_query_is_made_with_its_write() {
    let mut env = Environment::new(1);
    let id = Id::calculate(b"id");

    let (first, flush_now) = PutQuery::new(&id, &[1], &[], &mut env);
    assert_eq!(true, flush_now);
    let (second, flush_now) = PutQuery::new(&id, &[], &[2], &mut env);
    assert_eq!(false, flush_now);
    assert_eq!(first.round(), second.round());

    let entries = env.begin_flush();
    assert_eq!(1, entries.len());
    assert_eq!(vec![2], entries[0].value);
    let entries = env.extrinsic_written(Ok(())).unwrap();
    assert_eq!(1, entries.len());
    assert_eq!(vec![1], entries[0].value);
    env.intrinsic_written(Ok(()));
    assert_eq!(Ok(()), first.wait(&env));
    assert_eq!(Ok(()), second.wait(&env));
}

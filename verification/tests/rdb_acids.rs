use mouse::data_types::{AcidChainRelation, ChainIndex, CryptoHash, Id};
use mouse::rdb::acids::{
    accept_to_mempool, chain_to_mempool, create_table, fetch_mempool, fetch_state,
    mempool_to_chain,
};
use mouse::rdb::{main_chain, master, Environment, MasterSession};
use std::collections::HashMap;

const ACID_COUNT: usize = 10;
const WORKER: u64 = 1;

fn acid_ids() -> Vec<Id> {
    let mut id = Id::zeroed();
    let mut ret = Vec::with_capacity(ACID_COUNT);

    for i in 1..=ACID_COUNT {
        id.0[0] = i as u8;
        ret.push(id);
    }

    ret
}

fn session_on_empty_tables() -> MasterSession {
    let mut env = Environment::new();
    let mut session = master(&mut env, WORKER).unwrap();
    main_chain::create_table(&mut session).unwrap();
    create_table(&mut session).unwrap();
    session
}

fn session_on_filled_tables() -> MasterSession {
    let mut session = session_on_empty_tables();
    accept_to_mempool(&acid_ids(), &mut session).unwrap();
    session
}

fn as_map(states: Vec<AcidChainRelation>) -> HashMap<Id, Option<ChainIndex>> {
    let mut ret = HashMap::new();
    for s in states {
        let old = ret.insert(*s.id(), s.chain_index().map(|c| *c));
        assert_eq!(true, old.is_none());
    }
    ret
}

#[test]
fn acids_create_table_() {
    let mut env = Environment::new();
    let mut session = master(&mut env, WORKER).unwrap();

    assert_eq!(true, create_table(&mut session).is_ok());
    assert_eq!(true, create_table(&mut session).is_ok());
}

#[test]
fn accept_to_mempool_() {
    let mut session = session_on_empty_tables();

    // Insert empty ids
    {
        let ids: &[Id] = &[];
        assert_eq!(true, accept_to_mempool(ids, &mut session).is_ok());
    }

    // Insert single id
    {
        let ids = acid_ids();
        assert_eq!(true, accept_to_mempool(&ids[0..1], &mut session).is_ok());
    }

    // Insert more than 2 ids
    {
        let ids = acid_ids();
        assert_eq!(true, accept_to_mempool(&ids, &mut session).is_ok());
    }
}

#[test]
fn accept_to_mempool_twice_adds_one_row() {
    let mut session = session_on_empty_tables();
    let ids = acid_ids();

    assert_eq!(0, fetch_mempool(None, 100, &session).unwrap().len());
    accept_to_mempool(&ids[0..1], &mut session).unwrap();
    assert_eq!(1, fetch_mempool(None, 100, &session).unwrap().len());
    accept_to_mempool(&ids[0..1], &mut session).unwrap();
    assert_eq!(1, fetch_mempool(None, 100, &session).unwrap().len());

    // The same id twice in one call.
    accept_to_mempool(&[ids[1], ids[1]], &mut session).unwrap();
    assert_eq!(
        vec![(1, ids[0]), (2, ids[1])],
        fetch_mempool(None, 100, &session).unwrap()
    );
}

#[test]
fn mempool_to_chain_() {
    let mut session = session_on_filled_tables();

    let chain_index = ChainIndex::new(1, &Id::zeroed());
    assert_eq!(
        Ok(1),
        mempool_to_chain(&chain_index, &acid_ids()[0..1], &mut session)
    );

    assert_eq!(
        Ok(ACID_COUNT - 1),
        mempool_to_chain(&chain_index, &acid_ids(), &mut session)
    );

    assert_eq!(
        Ok(0),
        mempool_to_chain(&chain_index, &acid_ids(), &mut session)
    );
}

#[test]
fn mempool_to_chain_counts_a_repeated_id_once() {
    let mut session = session_on_filled_tables();
    let ids = acid_ids();
    let unknown = Id::calculate(b"unknown");

    let chain_index = ChainIndex::new(7, &Id::zeroed());
    assert_eq!(
        Ok(2),
        mempool_to_chain(
            &chain_index,
            &[ids[3], unknown, ids[3], ids[4], ids[3]],
            &mut session
        )
    );

    // A record of a block stays in its block.
    let other = ChainIndex::new(8, &Id::zeroed());
    assert_eq!(Ok(0), mempool_to_chain(&other, &[ids[3]], &mut session));
    assert_eq!(Ok(0), chain_to_mempool(&other, &mut session));
    assert_eq!(Ok(2), chain_to_mempool(&chain_index, &mut session));
}

#[test]
fn chain_to_mempool_() {
    let mut session = session_on_filled_tables();
    let chain_index = ChainIndex::new(1, &Id::zeroed());

    assert_eq!(Ok(0), chain_to_mempool(&chain_index, &mut session));

    mempool_to_chain(&chain_index, &acid_ids(), &mut session).unwrap();
    assert_eq!(Ok(ACID_COUNT), chain_to_mempool(&chain_index, &mut session));
}

#[test]
fn fetch_state_from_empty_table() {
    let session = session_on_empty_tables();

    let fetched = fetch_state(&acid_ids(), &session);
    assert_eq!(true, fetched.is_ok());

    let fetched = fetched.unwrap();
    assert_eq!(true, fetched.is_empty());
}

#[test]
fn fetch_state_from_filled_table() {
    let mut session = session_on_filled_tables();

    let chain_index = ChainIndex::new(1, &Id::zeroed());
    main_chain::push(&chain_index, &mut session).unwrap();
    mempool_to_chain(&chain_index, &acid_ids()[0..5], &mut session).unwrap();

    let fetched = fetch_state(&acid_ids(), &session);
    assert_eq!(true, fetched.is_ok());

    let fetched = as_map(fetched.unwrap());
    for id in &acid_ids()[0..5] {
        assert_eq!(Some(chain_index), fetched[id]);
    }
    for id in &acid_ids()[5..] {
        assert_eq!(None, fetched[id]);
    }
}

#[test]
fn fetch_state_names_each_known_id_once() {
    let mut session = session_on_filled_tables();
    let ids = acid_ids();
    let unknown = Id::calculate(b"unknown");

    let chain_index = ChainIndex::new(1, &ids[0]);
    main_chain::push(&chain_index, &mut session).unwrap();
    mempool_to_chain(&chain_index, &ids[2..3], &mut session).unwrap();

    let fetched = fetch_state(&[ids[2], unknown, ids[1], ids[2]], &session).unwrap();
    assert_eq!(2, fetched.len());
    assert_eq!(&ids[2], fetched[0].id());
    assert_eq!(Some(&chain_index), fetched[0].chain_index());
    assert_eq!(&ids[1], fetched[1].id());
    assert_eq!(None, fetched[1].chain_index());
}

#[test]
fn fetch_state_of_a_block_that_left_the_main_chain() {
    let mut session = session_on_filled_tables();
    let ids = acid_ids();

    // The height has no block in "main_chain".
    let chain_index = ChainIndex::new(4, &Id::zeroed());
    mempool_to_chain(&chain_index, &ids[0..1], &mut session).unwrap();

    let fetched = as_map(fetch_state(&ids[0..1], &session).unwrap());
    assert_eq!(None, fetched[&ids[0]]);
}

#[test]
fn fetch_mempool_pages_in_order_of_arrival() {
    let mut session = session_on_filled_tables();
    let ids = acid_ids();

    let chain_index = ChainIndex::new(1, &Id::zeroed());
    mempool_to_chain(&chain_index, &[ids[1], ids[4]], &mut session).unwrap();

    let all = fetch_mempool(None, 100, &session).unwrap();
    let expected: Vec<(i64, Id)> = [1i64, 3, 4, 6, 7, 8, 9, 10]
        .iter()
        .map(|seq| (*seq, ids[(*seq - 1) as usize]))
        .collect();
    assert_eq!(expected, all);

    let page = fetch_mempool(Some(4), 3, &session).unwrap();
    assert_eq!(&expected[2..5], &page[..]);

    let page = fetch_mempool(Some(5), 2, &session).unwrap();
    assert_eq!(&expected[3..5], &page[..]);

    assert_eq!(0, fetch_mempool(None, 0, &session).unwrap().len());
    assert_eq!(0, fetch_mempool(Some(11), 5, &session).unwrap().len());
    assert_eq!(expected, fetch_mempool(Some(-3), 100, &session).unwrap());
}

#[test]
fn acids_fail_without_their_tables() {
    let mut env = Environment::new();
    let mut session = master(&mut env, WORKER).unwrap();
    let ids = acid_ids();
    let chain_index = ChainIndex::new(1, &Id::zeroed());

    assert_eq!(1, accept_to_mempool(&ids, &mut session).unwrap_err().code());
    assert_eq!(
        1,
        mempool_to_chain(&chain_index, &ids, &mut session)
            .unwrap_err()
            .code()
    );
    assert_eq!(
        1,
        chain_to_mempool(&chain_index, &mut session)
            .unwrap_err()
            .code()
    );
    assert_eq!(1, fetch_state(&ids, &session).unwrap_err().code());
    assert_eq!(1, fetch_mempool(None, 1, &session).unwrap_err().code());

    // "acids" alone is not enough to look the blocks up.
    create_table(&mut session).unwrap();
    assert_eq!(1, fetch_state(&ids, &session).unwrap_err().code());
}

#[test]
fn chain_promotion() {
    let mut session = session_on_empty_tables();
    let ids = acid_ids();
    let id1 = ids[0];
    let id2 = ids[1];
    let x = Id::calculate(b"X");
    let block = ChainIndex::new(1, &x);

    accept_to_mempool(&[id1, id2], &mut session).unwrap();
    main_chain::push(&block, &mut session).unwrap();
    assert_eq!(Ok(1), mempool_to_chain(&block, &[id1], &mut session));

    let fetched = as_map(fetch_state(&[id1, id2], &session).unwrap());
    assert_eq!(2, fetched.len());
    assert_eq!(Some(block), fetched[&id1]);
    assert_eq!(None, fetched[&id2]);

    assert_eq!(Ok(1), chain_to_mempool(&block, &mut session));
    let fetched = as_map(fetch_state(&[id1, id2], &session).unwrap());
    assert_eq!(None, fetched[&id1]);
    assert_eq!(None, fetched[&id2]);
}

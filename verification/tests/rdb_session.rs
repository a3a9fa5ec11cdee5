use mouse::data_types::{ChainIndex, CryptoHash, Id, ResourceId};
use mouse::rdb::{
    acids, close_master, close_slave, create_table, main_chain, master, resources, slave,
    Connection, Environment, Error, Session,
};

const WORKER: u64 = 1;
const OTHER: u64 = 2;

#[test]
fn memory_db_constructor() {
    assert_eq!(true, Connection::open_memory_db().is_ok());
}

#[test]
fn mod_constructor() {
    let mut env = Environment::new();
    let _ = master(&mut env, WORKER);
}

#[test]
fn one_session_at_a_time() {
    let mut env = Environment::new();
    let first = master(&mut env, WORKER);
    assert_eq!(true, first.is_some());

    // Another thread has to wait.
    assert_eq!(true, master(&mut env, OTHER).is_none());
    assert_eq!(true, slave(&mut env, OTHER).is_none());

    close_master(first.unwrap(), &mut env);
    let second = slave(&mut env, OTHER);
    assert_eq!(true, second.is_some());
    assert_eq!(true, master(&mut env, WORKER).is_none());

    close_slave(second.unwrap(), &mut env);
    assert_eq!(true, master(&mut env, WORKER).is_some());
}

#[test]
fn init_creates_the_tables() {
    let mut env = Environment::new();
    assert_eq!(true, env.init().is_ok());
    assert_eq!(true, env.init().is_ok());

    let session = slave(&mut env, WORKER).unwrap();
    assert_eq!(true, main_chain::fetch_one(1, &session).unwrap().is_none());
    assert_eq!(true, acids::fetch_mempool(None, 1, &session).unwrap().is_empty());
    let r = ResourceId::new(b"owner", b"coin");
    assert_eq!(true, resources::fetch(&[r], &session).unwrap().is_empty());
}

#[test]
fn create_table_creates_all_the_tables() {
    let mut env = Environment::new();
    let mut session = master(&mut env, WORKER).unwrap();
    assert_eq!(true, create_table(&mut session).is_ok());

    let block = ChainIndex::new(1, &Id::zeroed());
    main_chain::push(&block, &mut session).unwrap();
    assert_eq!(true, create_table(&mut session).is_ok());
    assert_eq!(Some(Id::zeroed()), main_chain::fetch_one(1, &session).unwrap());
}

#[test]
fn commit_keeps_what_the_transaction_did() {
    let mut env = Environment::new();
    env.init().unwrap();
    let mut session = master(&mut env, WORKER).unwrap();
    let block = ChainIndex::new(1, &Id::zeroed());

    assert_eq!(false, session.is_transaction());
    session.begin_transaction().unwrap();
    assert_eq!(true, session.is_transaction());
    main_chain::push(&block, &mut session).unwrap();
    session.commit().unwrap();
    assert_eq!(false, session.is_transaction());

    assert_eq!(Some(Id::zeroed()), main_chain::fetch_one(1, &session).unwrap());
}

#[test]
fn rollback_undoes_what_the_transaction_did() {
    let mut env = Environment::new();
    env.init().unwrap();
    let mut session = master(&mut env, WORKER).unwrap();
    let first = ChainIndex::new(1, &Id::zeroed());
    let second = ChainIndex::new(2, &Id::calculate(b"second"));
    let r = ResourceId::new(b"owner", b"coin");
    let id = Id::calculate(b"acid");

    main_chain::push(&first, &mut session).unwrap();
    resources::update_balance(&[(r, 5)], &mut session).unwrap();

    session.begin_transaction().unwrap();
    main_chain::push(&second, &mut session).unwrap();
    acids::accept_to_mempool(&[id], &mut session).unwrap();
    resources::update_balance(&[(r, -5)], &mut session).unwrap();
    assert_eq!(true, resources::fetch(&[r], &session).unwrap().is_empty());
    session.rollback().unwrap();
    assert_eq!(false, session.is_transaction());

    assert_eq!(vec![first], main_chain::fetch_asc(1, 10, &session).unwrap());
    assert_eq!(true, acids::fetch_mempool(None, 10, &session).unwrap().is_empty());
    assert_eq!(vec![(r, 5)], resources::fetch(&[r], &session).unwrap());
}

#[test]
fn closing_a_session_rolls_its_transaction_back() {
    let mut env = Environment::new();
    env.init().unwrap();
    let block = ChainIndex::new(1, &Id::zeroed());

    let mut session = master(&mut env, WORKER).unwrap();
    session.begin_transaction().unwrap();
    main_chain::push(&block, &mut session).unwrap();
    close_master(session, &mut env);

    let session = slave(&mut env, WORKER).unwrap();
    assert_eq!(None, main_chain::fetch_one(1, &session).unwrap());
}

#[test]
fn closing_a_session_keeps_what_was_done_outside_a_transaction() {
    let mut env = Environment::new();
    env.init().unwrap();
    let block = ChainIndex::new(1, &Id::zeroed());

    let mut session = master(&mut env, WORKER).unwrap();
    main_chain::push(&block, &mut session).unwrap();
    close_master(session, &mut env);

    let session = slave(&mut env, OTHER).unwrap();
    assert_eq!(Some(Id::zeroed()), main_chain::fetch_one(1, &session).unwrap());
}

#[test]
fn a_slave_session_has_transactions_too() {
    let mut env = Environment::new();
    env.init().unwrap();
    let mut session = slave(&mut env, WORKER).unwrap();

    session.begin_transaction().unwrap();
    assert_eq!(true, session.is_transaction());
    session.rollback().unwrap();
    session.begin_transaction().unwrap();
    session.commit().unwrap();
    assert_eq!(false, session.is_transaction());
}

#[test]
fn error_wraps_its_code() {
    let e = Error::new(19);
    assert_eq!(19, e.code());
    assert_eq!(e, Error::new(19));
    assert_ne!(e, Error::new(275));
}

#[test]
fn error_has_a_message_for_its_code() {
    assert_eq!("not an error", Error::new(0).message());
    assert_eq!("SQL logic error", Error::new(1).message());
    assert_eq!("database or disk is full", Error::new(13).message());
    assert_eq!("string or blob too big", Error::new(18).message());
    assert_eq!("constraint failed", Error::new(19).message());
    assert_eq!("constraint failed", Error::new(275).message());
    assert_eq!("another row available", Error::new(100).message());
    assert_eq!("no more rows available", Error::new(101).message());
    assert_eq!("unknown error", Error::new(-7).message());
}

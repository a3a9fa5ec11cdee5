use mouse::data_types::{AssetValue, ResourceId};
use mouse::rdb::resources::{create_table, fetch, update_balance};
use mouse::rdb::{master, Environment, MasterSession};
use std::collections::HashMap;

const RESOURCE_COUNT: usize = 10;
const WORKER: u64 = 1;

fn session_on_empty_table() -> MasterSession {
    let mut env = Environment::new();
    let mut session = master(&mut env, WORKER).unwrap();
    create_table(&mut session).unwrap();
    session
}

/// The AssetValue of each element equals to the index.
///
/// `assert_eq!(i, balances()[i].1)`
fn balances() -> Vec<(ResourceId, AssetValue)> {
    let mut ret = Vec::with_capacity(RESOURCE_COUNT);
    let mut owner: [u8; 2] = [0, 0];
    let mut asset_type: [u8; 1] = [0];

    for i in 0..RESOURCE_COUNT {
        owner[0] = i as u8;
        asset_type[0] = i as u8;
        let resource_id = ResourceId::new(&owner, &asset_type);
        ret.push((resource_id, i as AssetValue));
    }

    ret
}

fn keys() -> Vec<ResourceId> {
    balances().iter().map(|(k, _)| *k).collect()
}

fn as_map(fetched: Vec<(ResourceId, AssetValue)>) -> HashMap<ResourceId, AssetValue> {
    let mut ret = HashMap::new();
    for (k, v) in fetched {
        let old = ret.insert(k, v);
        assert_eq!(true, old.is_none());
    }
    ret
}

#[test]
fn resources_create_table_() {
    let mut env = Environment::new();
    let mut session = master(&mut env, WORKER).unwrap();

    assert_eq!(true, create_table(&mut session).is_ok());
    assert_eq!(true, create_table(&mut session).is_ok());
}

#[test]
fn update_balance_() {
    let mut session = session_on_empty_table();

    // Depossiting assets.
    let deposits: Vec<(ResourceId, AssetValue)> = balances().iter().skip(1).map(|b| *b).collect();
    assert_eq!(true, update_balance(&deposits, &mut session).is_ok());

    // The all balances withdraw the all assets.
    let withdrawals: Vec<(ResourceId, AssetValue)> =
        balances().iter().skip(1).map(|(k, v)| (*k, -v)).collect();
    assert_eq!(true, update_balance(&withdrawals, &mut session).is_ok());

    // Deposit again.
    assert_eq!(true, update_balance(&deposits, &mut session).is_ok());

    // Withdrow from not charged ResourceId.
    {
        let deltas: Vec<(ResourceId, AssetValue)> =
            balances().iter().take(1).map(|(k, _)| (*k, -100)).collect();
        assert_eq!(false, update_balance(&deltas, &mut session).is_ok());
    }

    // Withdrow too much from charged ResourceId.
    {
        let deltas: Vec<(ResourceId, AssetValue)> =
            balances().iter().skip(1).map(|(k, _)| (*k, -100)).collect();
        assert_eq!(false, update_balance(&deltas, &mut session).is_ok());
    }
}

#[test]
fn fetch_from_empty_table() {
    let session = session_on_empty_table();

    let fetched = fetch(&keys(), &session);
    assert_eq!(true, fetched.is_ok());

    let fetched = fetched.unwrap();
    assert_eq!(true, fetched.is_empty());
}

#[test]
fn fetch_from_filled_table() {
    let mut session = session_on_empty_table();

    update_balance(&balances(), &mut session).unwrap();

    let fetched = fetch(&keys(), &session);
    assert_eq!(true, fetched.is_ok());

    let fetched = as_map(fetched.unwrap());
    assert_eq!(balances().len() - 1, fetched.len());
    for balance in balances().iter().skip(1) {
        let (k, v) = balance;
        assert_eq!(*v, fetched[k]);
    }

    let deltas: Vec<(ResourceId, AssetValue)> =
        balances().iter().skip(1).map(|(k, _)| (*k, -1)).collect();
    update_balance(&deltas, &mut session).unwrap();

    let fetched = fetch(&keys(), &session);
    assert_eq!(true, fetched.is_ok());

    let fetched = as_map(fetched.unwrap());
    assert_eq!(balances().len() - 2, fetched.len());
    for balance in balances().iter().skip(2) {
        let (k, v) = balance;
        assert_eq!(*v - 1, fetched[k]);
    }
}

#[test]
fn balance_invariant() {
    let mut session = session_on_empty_table();
    let r = ResourceId::new(b"owner", b"coin");
    let r2 = ResourceId::new(b"other", b"coin");

    assert_eq!(true, update_balance(&[(r, 5)], &mut session).is_ok());
    assert_eq!(vec![(r, 5)], fetch(&[r], &session).unwrap());

    assert_eq!(true, update_balance(&[(r, -5)], &mut session).is_ok());
    assert_eq!(true, fetch(&[r], &session).unwrap().is_empty());

    // No balance is left to take from.
    let e = update_balance(&[(r, -1)], &mut session).unwrap_err();
    assert_eq!(275, e.code());

    // There never was a balance.
    let e = update_balance(&[(r2, -1)], &mut session).unwrap_err();
    assert_eq!(275, e.code());
}

#[test]
fn update_balance_rejects_more_than_the_balance() {
    let mut session = session_on_empty_table();
    let r = ResourceId::new(b"owner", b"coin");

    update_balance(&[(r, 5)], &mut session).unwrap();
    let e = update_balance(&[(r, -6)], &mut session).unwrap_err();
    assert_eq!(19, e.code());
    assert_eq!(vec![(r, 5)], fetch(&[r], &session).unwrap());
}

#[test]
fn update_balance_deposits_before_it_withdraws() {
    let mut session = session_on_empty_table();
    let r = ResourceId::new(b"owner", b"coin");

    // The withdrawal comes first in the list, and succeeds.
    assert_eq!(
        true,
        update_balance(&[(r, -3), (r, 0), (r, 2), (r, 4)], &mut session).is_ok()
    );
    assert_eq!(vec![(r, 3)], fetch(&[r], &session).unwrap());

    // The sum is 0: the row is gone.
    assert_eq!(
        true,
        update_balance(&[(r, -5), (r, 2)], &mut session).is_ok()
    );
    assert_eq!(true, fetch(&[r], &session).unwrap().is_empty());
}

#[test]
fn update_balance_keeps_what_was_done_before_a_failure() {
    let mut session = session_on_empty_table();
    let a = ResourceId::new(b"a", b"coin");
    let b = ResourceId::new(b"b", b"coin");

    update_balance(&[(a, 10), (b, 10)], &mut session).unwrap();
    let e = update_balance(&[(a, -4), (b, -11), (a, 1), (b, -1)], &mut session).unwrap_err();
    assert_eq!(19, e.code());

    // The deposit and the first withdrawal are done, the others are not.
    let fetched = as_map(fetch(&[a, b], &session).unwrap());
    assert_eq!(7, fetched[&a]);
    assert_eq!(10, fetched[&b]);
}

#[test]
fn update_balance_rejects_a_balance_beyond_the_greatest_amount() {
    let mut session = session_on_empty_table();
    let r = ResourceId::new(b"owner", b"coin");

    update_balance(&[(r, AssetValue::MAX)], &mut session).unwrap();
    let e = update_balance(&[(r, 1)], &mut session).unwrap_err();
    assert_eq!(18, e.code());
    assert_eq!(vec![(r, AssetValue::MAX)], fetch(&[r], &session).unwrap());
}

#[test]
fn fetch_names_each_balance_once() {
    let mut session = session_on_empty_table();
    let a = ResourceId::new(b"a", b"coin");
    let b = ResourceId::new(b"b", b"coin");
    let c = ResourceId::new(b"a", b"gold");

    update_balance(&[(a, 1), (b, 2)], &mut session).unwrap();
    assert_eq!(
        vec![(b, 2), (a, 1)],
        fetch(&[b, c, a, b, a], &session).unwrap()
    );
}

#[test]
fn resources_fail_without_their_table() {
    let mut env = Environment::new();
    let mut session = master(&mut env, WORKER).unwrap();
    let r = ResourceId::new(b"owner", b"coin");

    assert_eq!(1, update_balance(&[(r, 1)], &mut session).unwrap_err().code());
    assert_eq!(1, fetch(&[r], &session).unwrap_err().code());
}

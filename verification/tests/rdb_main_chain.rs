use mouse::data_types::{BlockHeight, ChainIndex, CryptoHash, Id};
use mouse::rdb::main_chain::{create_table, fetch, fetch_asc, fetch_desc, fetch_one, pop, push};
use mouse::rdb::{close_master, master, slave, Environment, MasterSession, SlaveSession};

const CHAIN_LEN: usize = 10;
const MAX_CHAIN_HEIGHT: BlockHeight = 10;
const THREAD: u64 = 1;

fn ids() -> Vec<Id> {
    let mut ret = Vec::with_capacity(CHAIN_LEN);
    let mut id = Id::zeroed();

    for i in 1..=CHAIN_LEN {
        id.0[0] = i as u8;
        ret.push(id);
    }

    ret
}

fn main_chain() -> Vec<ChainIndex> {
    let mut ret = Vec::with_capacity(CHAIN_LEN);
    for (i, id) in ids().iter().enumerate() {
        let chain_index = ChainIndex::new((i + 1) as BlockHeight, &id);
        ret.push(chain_index);
    }
    ret
}

fn empty_table() -> Environment {
    let mut env = Environment::new();
    {
        let mut session = master(&mut env, THREAD).unwrap();
        create_table(&mut session).unwrap();
        close_master(session, &mut env);
    }
    env
}

fn filled_table() -> Environment {
    let mut env = empty_table();
    {
        let mut session = master(&mut env, THREAD).unwrap();

        for c in main_chain() {
            let _ = push(&c, &mut session);
        }
        close_master(session, &mut env);
    }

    env
}

fn greater<T: PartialOrd>(a: T, b: T) -> T {
    if a < b {
        b
    } else {
        a
    }
}

fn smaller<T: PartialOrd>(a: T, b: T) -> T {
    if b < a {
        b
    } else {
        a
    }
}

fn master_of(env: &mut Environment) -> MasterSession {
    master(env, THREAD).unwrap()
}

fn slave_of(env: &mut Environment) -> SlaveSession {
    slave(env, THREAD).unwrap()
}

#[test]
fn main_chain_create_table_() {
    let mut env = Environment::new();
    let mut session = master_of(&mut env);

    assert_eq!(true, create_table(&mut session).is_ok());
    assert_eq!(true, create_table(&mut session).is_ok());
}

#[test]
fn create_table_keeps_the_rows() {
    let mut env = filled_table();
    let mut session = master_of(&mut env);

    assert_eq!(true, create_table(&mut session).is_ok());
    let fetched = fetch_asc(1, 100, &session).unwrap();
    assert_eq!(main_chain(), fetched);
}

#[test]
fn main_chain_fails_without_its_table() {
    let mut env = Environment::new();
    let mut session = master_of(&mut env);
    let c = ChainIndex::new(1, &Id::zeroed());

    assert_eq!(1, push(&c, &mut session).unwrap_err().code());
    assert_eq!(1, pop(&mut session).unwrap_err().code());
    assert_eq!(1, fetch(&[1], &session).unwrap_err().code());
    assert_eq!(1, fetch_one(1, &session).unwrap_err().code());
    assert_eq!(1, fetch_asc(1, 1, &session).unwrap_err().code());
    assert_eq!(1, fetch_desc(1, 1, &session).unwrap_err().code());
}

#[test]
fn push_() {
    let mut env = empty_table();
    let mut session = master_of(&mut env);

    for c in main_chain() {
        let heights: &[BlockHeight] = &[c.height()];
        let fetched = fetch(heights, &mut session);
        assert_eq!(0, fetched.unwrap().len());

        assert_eq!(true, push(&c, &mut session).is_ok());
        assert_eq!(false, push(&c, &mut session).is_ok());

        let fetched = fetch(heights, &mut session);
        assert_eq!(1, fetched.unwrap().len());
    }

    for c in main_chain() {
        assert_eq!(false, push(&c, &mut session).is_ok());
    }
}

#[test]
fn push_rejects_a_known_height_and_a_known_id() {
    let mut env = filled_table();
    let mut session = master_of(&mut env);
    let chain = main_chain();

    // A new id at a height that is taken.
    let new_id = Id::calculate(b"new");
    let e = push(&ChainIndex::new(3, &new_id), &mut session).unwrap_err();
    assert_eq!(19, e.code());

    // A known id at a new height.
    let e = push(&ChainIndex::new(11, chain[2].id()), &mut session).unwrap_err();
    assert_eq!(19, e.code());

    // Nothing has changed.
    assert_eq!(chain, fetch_asc(1, 100, &session).unwrap());

    // A new id at a new height.
    assert_eq!(true, push(&ChainIndex::new(11, &new_id), &mut session).is_ok());
    assert_eq!(Some(new_id), fetch_one(11, &session).unwrap());
}

#[test]
fn push_keeps_the_rows_in_order_of_height() {
    let mut env = empty_table();
    let mut session = master_of(&mut env);
    let chain = main_chain();

    for i in [4usize, 0, 9, 2, 7, 1, 8, 3, 6, 5] {
        assert_eq!(true, push(&chain[i], &mut session).is_ok());
    }
    assert_eq!(chain, fetch_asc(1, 100, &session).unwrap());
}

#[test]
fn pop_() {
    let mut env = filled_table();
    let mut session = master_of(&mut env);

    for i in 0..MAX_CHAIN_HEIGHT {
        let heights: &[BlockHeight] = &[MAX_CHAIN_HEIGHT - i];
        let fetched = fetch(heights, &mut session);
        assert_eq!(1, fetched.unwrap().len());

        assert_eq!(true, pop(&mut session).is_ok());

        let fetched = fetch(heights, &mut session);
        assert_eq!(0, fetched.unwrap().len());
    }

    assert_eq!(true, pop(&mut session).is_ok());
}

#[test]
fn pop_then_push_restores_the_table() {
    let mut env = filled_table();
    let mut session = master_of(&mut env);
    let chain = main_chain();

    pop(&mut session).unwrap();
    assert_eq!(&chain[..9], &fetch_asc(1, 100, &session).unwrap()[..]);

    push(&chain[9], &mut session).unwrap();
    assert_eq!(chain, fetch_asc(1, 100, &session).unwrap());
}

#[test]
fn fetch_from_empty() {
    let mut env = empty_table();
    let mut session = slave_of(&mut env);

    // Empty height
    {
        let heights: &[BlockHeight] = &[];

        let fetched = fetch(heights, &mut session);
        assert_eq!(true, fetched.is_ok());

        let fetched = fetched.unwrap();
        assert_eq!(0, fetched.len());
    }

    // Single height
    {
        for i in [-1, 0, 1].iter() {
            let heights: &[BlockHeight] = &[*i];

            let fetched = fetch(heights, &mut session);
            assert_eq!(true, fetched.is_ok());

            let fetched = fetched.unwrap();
            assert_eq!(0, fetched.len());
        }
    }

    // 2 heights
    {
        for i in [-1, 0, 1].iter() {
            for j in [-1, 0, 1].iter() {
                let heights: &[BlockHeight] = &[*i, *j];

                let fetched = fetch(heights, &mut session);
                assert_eq!(true, fetched.is_ok());

                let fetched = fetched.unwrap();
                assert_eq!(0, fetched.len());
            }
        }
    }
}

#[test]
fn fetch_from_filled() {
    let mut env = filled_table();
    let mut session = slave_of(&mut env);

    // Empty height
    {
        let heights: &[BlockHeight] = &[];

        let fetched = fetch(heights, &mut session);
        assert_eq!(true, fetched.is_ok());

        let fetched = fetched.unwrap();
        assert_eq!(0, fetched.len());
    }

    // 1 height
    for i in -1..=MAX_CHAIN_HEIGHT + 1 {
        let heights: &[BlockHeight] = &[i];

        let fetched = fetch(heights, &mut session);
        assert_eq!(true, fetched.is_ok());

        let fetched = fetched.unwrap();

        if 0 < i && i <= MAX_CHAIN_HEIGHT {
            // 1 hit
            assert_eq!(1, fetched.len());
            let expected = ids()[(i - 1) as usize];
            assert_eq!(expected, fetched[&i]);
        } else {
            // 0 hit
            assert_eq!(0, fetched.len());
        }
    }

    // 2 heights
    for i in -1..=MAX_CHAIN_HEIGHT + 1 {
        for j in -1..=MAX_CHAIN_HEIGHT + 1 {
            let heights: &[BlockHeight] = &[i, j];

            let fetched = fetch(heights, &mut session);
            assert_eq!(true, fetched.is_ok());

            let fetched = fetched.unwrap();

            if 0 < i && i <= MAX_CHAIN_HEIGHT {
                // hit i
                let expected = ids()[(i - 1) as usize];
                assert_eq!(expected, fetched[&i]);
            } else {
                // fault i
                assert_eq!(false, fetched.contains_key(&i));
            }

            if 0 < j && j <= MAX_CHAIN_HEIGHT {
                // hit j
                let expected = ids()[(j - 1) as usize];
                assert_eq!(expected, fetched[&j]);
            } else {
                // fault j
                assert_eq!(false, fetched.contains_key(&j));
            }
        }
    }
}

#[test]
fn fetch_one_from_filled() {
    let mut env = filled_table();
    let session = slave_of(&mut env);

    for i in -1..=MAX_CHAIN_HEIGHT + 1 {
        let fetched = fetch_one(i, &session).unwrap();
        if 0 < i && i <= MAX_CHAIN_HEIGHT {
            assert_eq!(Some(ids()[(i - 1) as usize]), fetched);
        } else {
            assert_eq!(None, fetched);
        }
    }
    assert_eq!(None, fetch_one(BlockHeight::MAX, &session).unwrap());
    assert_eq!(None, fetch_one(BlockHeight::MIN, &session).unwrap());
}

#[test]
fn fetch_asc_from_empty_table() {
    let mut env = empty_table();
    let mut session = slave_of(&mut env);

    for min_height in &[-1, 0, 1] {
        for limit in &[0, 1] {
            let fetched = fetch_asc(*min_height, *limit, &mut session);
            assert_eq!(true, fetched.is_ok());

            let fetched = fetched.unwrap();
            assert_eq!(0, fetched.len());
        }
    }
}

#[test]
fn fetch_asc_from_filled_table() {
    let mut env = filled_table();
    let mut session = slave_of(&mut env);

    for min_height in -1..=(MAX_CHAIN_HEIGHT + 1) {
        for limit in 0..=(CHAIN_LEN + 1) {
            let fetched = fetch_asc(min_height, limit as u32, &mut session);
            assert_eq!(true, fetched.is_ok());

            let fetched = fetched.unwrap();

            let start = greater(0, min_height - 1) as usize;
            let end = smaller(MAX_CHAIN_HEIGHT as usize, start + limit);
            let chain = main_chain();
            let expected = &chain[start..end];

            assert_eq!(expected, &fetched[..]);
        }
    }
}

#[test]
fn fetch_desc_from_empty_table() {
    let mut env = empty_table();
    let mut session = slave_of(&mut env);

    for max_height in &[-1, 0, 1] {
        for limit in &[0, 1] {
            let fetched = fetch_desc(*max_height, *limit, &mut session);
            assert_eq!(true, fetched.is_ok());

            let fetched = fetched.unwrap();
            assert_eq!(0, fetched.len());
        }
    }
}

#[test]
fn fetch_desc_from_filled_table() {
    let mut env = filled_table();
    let mut session = slave_of(&mut env);

    for max_height in -1..=(MAX_CHAIN_HEIGHT + 1) {
        for limit in 0..=(CHAIN_LEN + 1) {
            let fetched = fetch_desc(max_height, limit as u32, &mut session);
            assert_eq!(true, fetched.is_ok());

            let fetched = fetched.unwrap();

            let end = smaller(MAX_CHAIN_HEIGHT, max_height);
            let start = greater(0, end - (limit as i64)) as usize;
            let end = greater(0, end) as usize;
            let mut chain = main_chain();
            let expected = &mut chain[start..end];
            expected.reverse();

            assert_eq!(&expected[..], &fetched[..]);
        }
    }
}

#[test]
fn fetch_desc_up_to_the_greatest_height() {
    let mut env = filled_table();
    let session = slave_of(&mut env);

    let fetched = fetch_desc(BlockHeight::MAX, 3, &session).unwrap();
    let chain = main_chain();
    assert_eq!(vec![chain[9], chain[8], chain[7]], fetched);

    let fetched = fetch_asc(BlockHeight::MIN, 2, &session).unwrap();
    assert_eq!(vec![chain[0], chain[1]], fetched);
}

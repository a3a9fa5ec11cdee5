use mouse::cache::{
    add_usage, cache_using_byte_size, chain_len, decrease_cache_using_size, expire, find,
    increase_cache_using_size, insert, is_cached, not_found, sub_usage, usage, CacheAlloc,
    CacheFindResult, CacheState, Crc, Environment, Usage, DEFAULT_SIZE_SOFT_LIMIT,
    NOT_FOUND_BYTE_SIZE,
};
use mouse::data_types::{Acid, Blob, CryptoHash, Id};

const MIB: u64 = 1024 * 1024;

fn state_of<A: Acid>(id: &Id, env: &mut Environment<A>) -> CacheState {
    match find(id, env) {
        CacheFindResult::Hit(_) => CacheState::Cached,
        CacheFindResult::Lost => CacheState::Lost,
        CacheFindResult::Fault => CacheState::Fault,
    }
}

#[test]
fn usage_counts_up_and_down() {
    let mut counter = Usage::new();
    assert_eq!(0, usage(&counter));
    assert_eq!(10, add_usage(&mut counter, 10));
    assert_eq!(25, add_usage(&mut counter, 15));
    assert_eq!(25, usage(&counter));
    assert_eq!(5, sub_usage(&mut counter, 20));
    assert_eq!(5, usage(&counter));
}

#[test]
fn usage_counts_modulo_2_to_the_64() {
    let mut counter = Usage::new();
    assert_eq!(u64::MAX, sub_usage(&mut counter, 1));
    assert_eq!(1, add_usage(&mut counter, 2));
    assert_eq!(0, add_usage(&mut counter, u64::MAX));
}

#[test]
fn cache_using_size_is_the_usage() {
    let mut counter = Usage::new();
    assert_eq!(7, increase_cache_using_size(7, &mut counter));
    assert_eq!(7, cache_using_byte_size(&counter));
    assert_eq!(4, decrease_cache_using_size(3, &mut counter));
    assert_eq!(4, usage(&counter));
}

#[test]
fn allocator_accounts_for_the_blocks() {
    let allocator = CacheAlloc::new();
    let mut counter = Usage::new();

    allocator.account_alloc(Some(24), &mut counter);
    assert_eq!(24, usage(&counter));

    // A null pointer counts for nothing.
    allocator.account_alloc(None, &mut counter);
    assert_eq!(24, usage(&counter));

    allocator.account_alloc(Some(40), &mut counter);
    allocator.account_dealloc(Some(24), &mut counter);
    assert_eq!(40, usage(&counter));
    allocator.account_dealloc(None, &mut counter);
    CacheAlloc::default().account_dealloc(Some(40), &mut counter);
    assert_eq!(0, usage(&counter));
}

#[test]
fn crc_constructor() {
    let mut counter = Usage::new();
    assert_eq!(0, usage(&counter));

    {
        let mut crc = Crc::new("payload", 48, &mut counter);
        assert_ne!(0, usage(&counter));
        assert_eq!(48, usage(&counter));
        assert_eq!(1, crc.strong_count());
        assert_eq!(Some(&"payload"), crc.downcast());

        assert_eq!(Some("payload"), crc.release(&mut counter));
        assert_eq!(0, crc.strong_count());
        assert_eq!(None, crc.downcast());
    }

    assert_eq!(0, usage(&counter));
}

#[test]
fn crc_clone() {
    let mut counter = Usage::new();
    let mut crc = Crc::new(7u32, 32, &mut counter);
    let u = usage(&counter);
    assert_ne!(0, u);

    {
        assert_eq!(true, crc.acquire());
        assert_eq!(2, crc.strong_count());
        assert_eq!(u, usage(&counter));

        assert_eq!(None, crc.release(&mut counter));
        assert_eq!(Some(&7), crc.downcast());
    }

    assert_eq!(u, usage(&counter));
    assert_eq!(1, crc.strong_count());

    assert_eq!(Some(7), crc.release(&mut counter));
    assert_eq!(0, usage(&counter));

    // No handle can be made of a bucket without a payload.
    assert_eq!(false, crc.acquire());
    assert_eq!(0, crc.strong_count());
}

#[test]
fn chain_len_follows_the_soft_limit() {
    assert_eq!(1, chain_len(0));
    assert_eq!(1, chain_len(127));
    assert_eq!(1, chain_len(1151));
    assert_eq!(2, chain_len(1152));
    assert_eq!(64528, chain_len(DEFAULT_SIZE_SOFT_LIMIT));
    assert_eq!(u64::MAX / 128 * 8 / 65 + 1, chain_len(u64::MAX));
}

#[test]
fn environment_starts_empty() {
    let mut env: Environment<Blob> = Environment::new();
    assert_eq!(0, env.len());
    assert_eq!(67108864, env.size_soft_limit());

    env.check(MIB);
    env.init();
    assert_eq!(MIB, env.size_soft_limit());
    assert_eq!(0, env.len());
}

#[test]
fn cache_hit_miss_fault_cycle() {
    let mut env: Environment<Blob> = Environment::new();
    let mut counter = Usage::new();
    env.check(MIB);
    env.init();

    let a1 = Blob::from_bytes(b"a1");
    let expected = a1.intrinsic();
    let id1 = *a1.id();

    assert_eq!(CacheState::Lost, state_of(&id1, &mut env));

    not_found(id1, &mut env, &mut counter);
    assert_eq!(CacheState::Fault, state_of(&id1, &mut env));

    insert(a1, 100, &mut env, &mut counter);
    match find(&id1, &mut env) {
        CacheFindResult::Hit(acid) => {
            assert_eq!(&id1, acid.id());
            assert_eq!(expected, acid.intrinsic());
        }
        _ => panic!("the record is cached"),
    }
    assert_eq!(CacheState::Cached, is_cached(&id1, &mut env));
    assert_eq!(1, env.len());

    // The record took the place of the note.
    assert_eq!(100, usage(&counter));
}

#[test]
fn lru_eviction() {
    let mut env: Environment<Blob> = Environment::new();
    let mut counter = Usage::new();
    env.check(250);
    env.init();

    let a1 = Blob::from_bytes(b"a1");
    let a2 = Blob::from_bytes(b"a2");
    let a3 = Blob::from_bytes(b"a3");
    let (id1, id2, id3) = (*a1.id(), *a2.id(), *a3.id());

    insert(a1, 100, &mut env, &mut counter);
    insert(a2, 100, &mut env, &mut counter);
    assert_eq!(CacheState::Cached, state_of(&id1, &mut env));
    insert(a3, 100, &mut env, &mut counter);

    assert_eq!(CacheState::Lost, state_of(&id2, &mut env));
    assert_eq!(CacheState::Cached, state_of(&id1, &mut env));
    assert_eq!(CacheState::Cached, state_of(&id3, &mut env));
    assert_eq!(2, env.len());
    assert_eq!(200, usage(&counter));
}

#[test]
fn eviction_stops_at_the_soft_limit() {
    let mut env: Environment<Blob> = Environment::new();
    let mut counter = Usage::new();
    env.check(300);

    for i in 0..3u8 {
        insert(Blob::from_bytes(&[i]), 100, &mut env, &mut counter);
    }
    // The limit itself is not exceeded.
    assert_eq!(3, env.len());
    assert_eq!(300, usage(&counter));

    // The next entry is larger than two of the others.
    let big = Blob::from_bytes(b"big");
    let big_id = *big.id();
    insert(big, 201, &mut env, &mut counter);
    assert_eq!(1, env.len());
    assert_eq!(201, usage(&counter));
    assert_eq!(CacheState::Cached, state_of(&big_id, &mut env));
}

#[test]
fn eviction_ends_with_an_empty_cache() {
    let mut env: Environment<Blob> = Environment::new();
    let mut counter = Usage::new();
    env.check(10);

    // Bytes that the cache cannot free.
    add_usage(&mut counter, 50);

    let a = Blob::from_bytes(b"a");
    let id = *a.id();
    insert(a, 100, &mut env, &mut counter);
    assert_eq!(0, env.len());
    assert_eq!(50, usage(&counter));
    assert_eq!(CacheState::Lost, state_of(&id, &mut env));
}

#[test]
fn not_found_keeps_an_entry_and_its_place() {
    let mut env: Environment<Blob> = Environment::new();
    let mut counter = Usage::new();
    env.check(250);

    let a1 = Blob::from_bytes(b"a1");
    let a2 = Blob::from_bytes(b"a2");
    let a3 = Blob::from_bytes(b"a3");
    let (id1, id2, id3) = (*a1.id(), *a2.id(), *a3.id());

    insert(a1, 100, &mut env, &mut counter);
    insert(a2, 100, &mut env, &mut counter);

    // The record stays, and stays the least recently used one.
    not_found(id1, &mut env, &mut counter);
    assert_eq!(200, usage(&counter));
    insert(a3, 100, &mut env, &mut counter);

    assert_eq!(CacheState::Lost, is_cached(&id1, &mut env));
    assert_eq!(CacheState::Cached, is_cached(&id2, &mut env));
    assert_eq!(CacheState::Cached, is_cached(&id3, &mut env));
}

#[test]
fn not_found_is_accounted_and_evicts() {
    let mut env: Environment<Blob> = Environment::new();
    let mut counter = Usage::new();
    env.check(100);

    let a1 = Blob::from_bytes(b"a1");
    let id1 = *a1.id();
    insert(a1, 80, &mut env, &mut counter);

    let unknown = Id::calculate(b"unknown");
    not_found(unknown, &mut env, &mut counter);
    assert_eq!(NOT_FOUND_BYTE_SIZE, usage(&counter));
    assert_eq!(CacheState::Lost, is_cached(&id1, &mut env));
    assert_eq!(CacheState::Fault, is_cached(&unknown, &mut env));

    // A second note changes nothing.
    not_found(unknown, &mut env, &mut counter);
    assert_eq!(NOT_FOUND_BYTE_SIZE, usage(&counter));
    assert_eq!(1, env.len());
}

#[test]
fn is_cached_makes_the_entry_the_most_recently_used() {
    let mut env: Environment<Blob> = Environment::new();
    let mut counter = Usage::new();

    let a1 = Blob::from_bytes(b"a1");
    let a2 = Blob::from_bytes(b"a2");
    let (id1, id2) = (*a1.id(), *a2.id());
    insert(a1, 10, &mut env, &mut counter);
    insert(a2, 10, &mut env, &mut counter);

    assert_eq!(CacheState::Cached, is_cached(&id1, &mut env));
    assert_eq!(true, expire(&mut env, &mut counter));
    assert_eq!(CacheState::Lost, is_cached(&id2, &mut env));
    assert_eq!(CacheState::Cached, is_cached(&id1, &mut env));
}

#[test]
fn expire_evicts_the_least_recently_used_entry() {
    let mut env: Environment<Blob> = Environment::new();
    let mut counter = Usage::new();
    assert_eq!(false, expire(&mut env, &mut counter));

    let a1 = Blob::from_bytes(b"a1");
    let a2 = Blob::from_bytes(b"a2");
    let (id1, id2) = (*a1.id(), *a2.id());
    insert(a1, 30, &mut env, &mut counter);
    insert(a2, 12, &mut env, &mut counter);
    assert_eq!(42, usage(&counter));

    assert_eq!(true, expire(&mut env, &mut counter));
    assert_eq!(12, usage(&counter));
    assert_eq!(CacheState::Lost, is_cached(&id1, &mut env));
    assert_eq!(CacheState::Cached, is_cached(&id2, &mut env));

    assert_eq!(true, expire(&mut env, &mut counter));
    assert_eq!(0, usage(&counter));
    assert_eq!(false, expire(&mut env, &mut counter));
    assert_eq!(0, usage(&counter));
}

#[test]
fn insert_of_a_cached_record_keeps_one_entry() {
    let mut env: Environment<Blob> = Environment::new();
    let mut counter = Usage::new();

    let first = Blob::from_bytes(b"first");
    let id = *first.id();
    insert(first, 100, &mut env, &mut counter);

    // The same record again: the cached one stays, and the new one is
    // dropped without being accounted.
    insert(Blob::from_bytes(b"first"), 500, &mut env, &mut counter);
    assert_eq!(1, env.len());
    assert_eq!(100, usage(&counter));
    match find(&id, &mut env) {
        CacheFindResult::Hit(blob) => assert_eq!(true, blob.is_traceable()),
        _ => panic!("the record is cached"),
    }
}

#[test]
fn insert_makes_the_cached_record_the_most_recently_used() {
    let mut env: Environment<Blob> = Environment::new();
    let mut counter = Usage::new();

    let first = Blob::from_bytes(b"first");
    let second = Blob::from_bytes(b"second");
    let (id1, id2) = (*first.id(), *second.id());
    insert(first, 10, &mut env, &mut counter);
    insert(second, 10, &mut env, &mut counter);
    insert(Blob::from_bytes(b"first"), 10, &mut env, &mut counter);

    assert_eq!(true, expire(&mut env, &mut counter));
    assert_eq!(CacheState::Lost, is_cached(&id2, &mut env));
    assert_eq!(CacheState::Cached, is_cached(&id1, &mut env));
}

/// The cache as a list of ids, the least recently used first.
struct Model {
    ids: Vec<Id>,
    notes: Vec<bool>,
    sizes: Vec<u64>,
    usage: u64,
    limit: u64,
}

impl Model {
    fn position(&self, id: &Id) -> Option<usize> {
        self.ids.iter().position(|x| x == id)
    }

    fn touch(&mut self, id: &Id) -> CacheState {
        match self.position(id) {
            None => CacheState::Lost,
            Some(j) => {
                let (id, note, size) = (self.ids.remove(j), self.notes.remove(j), self.sizes.remove(j));
                self.ids.push(id);
                self.notes.push(note);
                self.sizes.push(size);
                if note {
                    CacheState::Fault
                } else {
                    CacheState::Cached
                }
            }
        }
    }

    fn shrink(&mut self) {
        while self.limit < self.usage && !self.ids.is_empty() {
            self.ids.remove(0);
            self.notes.remove(0);
            self.usage -= self.sizes.remove(0);
        }
    }

    fn insert(&mut self, id: Id, size: u64) {
        match self.touch(&id) {
            CacheState::Lost => {
                self.ids.push(id);
                self.notes.push(false);
                self.sizes.push(size);
                self.usage += size;
            }
            CacheState::Fault => {
                let last = self.ids.len() - 1;
                self.usage = self.usage - self.sizes[last] + size;
                self.notes[last] = false;
                self.sizes[last] = size;
            }
            CacheState::Cached => {}
        }
        self.shrink();
    }

    fn not_found(&mut self, id: Id) {
        if self.position(&id).is_none() {
            self.ids.push(id);
            self.notes.push(true);
            self.sizes.push(NOT_FOUND_BYTE_SIZE);
            self.usage += NOT_FOUND_BYTE_SIZE;
            self.shrink();
        }
    }

    fn expire(&mut self) -> bool {
        if self.ids.is_empty() {
            return false;
        }
        self.ids.remove(0);
        self.notes.remove(0);
        self.usage -= self.sizes.remove(0);
        true
    }
}

fn run_against_the_model(limit: u64, init: bool, steps: u32, keys: u64) {
    let mut env: Environment<Blob> = Environment::new();
    let mut counter = Usage::new();
    env.check(limit);
    if init {
        env.init();
    }
    let mut model = Model {
        ids: Vec::new(),
        notes: Vec::new(),
        sizes: Vec::new(),
        usage: 0,
        limit,
    };

    let mut seed: u64 = 0x2545_f491_4f6c_dd1d;
    for _ in 0..steps {
        seed = seed
            .wrapping_mul(6364136223846793005)
            .wrapping_add(1442695040888963407);
        let key = (seed >> 33) % keys;
        let blob = Blob::from_bytes(&key.to_be_bytes());
        let id = *blob.id();
        match (seed >> 20) % 5 {
            0 | 1 => {
                let size = 50 + key % 100;
                insert(blob, size, &mut env, &mut counter);
                model.insert(id, size);
            }
            2 => {
                assert_eq!(model.touch(&id), is_cached(&id, &mut env));
            }
            3 => {
                not_found(id, &mut env, &mut counter);
                model.not_found(id);
            }
            _ => {
                assert_eq!(model.expire(), expire(&mut env, &mut counter));
            }
        }
        assert_eq!(model.ids.len(), env.len());
        assert_eq!(model.usage, usage(&counter));
    }

    // What is left comes out in the order of the last use.
    for id in model.ids.clone() {
        assert_ne!(CacheState::Lost, is_cached(&id, &mut env));
    }
    for (id, note) in model.ids.iter().zip(model.notes.iter()) {
        let expected = if *note {
            CacheState::Fault
        } else {
            CacheState::Cached
        };
        let state = match find(id, &mut env) {
            CacheFindResult::Hit(blob) => {
                assert_eq!(id, blob.id());
                CacheState::Cached
            }
            CacheFindResult::Lost => CacheState::Lost,
            CacheFindResult::Fault => CacheState::Fault,
        };
        assert_eq!(expected, state);
    }
    for _ in 0..model.ids.len() {
        assert_eq!(true, expire(&mut env, &mut counter));
    }
    assert_eq!(false, expire(&mut env, &mut counter));
    assert_eq!(0, usage(&counter));
}

#[test]
fn the_cache_behaves_like_a_list_in_order_of_use() {
    // One chain: every entry stands in the same chain.
    run_against_the_model(3000, false, 4000, 60);
}

#[test]
fn the_index_of_many_chains_finds_every_entry() {
    // 1 MiB asks for 1009 chains.
    assert_eq!(1009, chain_len(MIB));
    run_against_the_model(MIB, true, 6000, 3000);
}

#[test]
fn the_index_of_a_few_chains_finds_every_entry() {
    // 4 KiB asks for 4 chains.
    assert_eq!(4, chain_len(4096));
    run_against_the_model(4096, true, 6000, 200);
}

use crosschain_quote::cache::{Access, CacheKey, StateCache};
use crosschain_quote::types::{Address, U256};

fn slot(n: u8) -> U256 {
    let mut bytes = [0u8; 32];
    bytes[31] = n;
    U256 { bytes }
}

#[test]
fn new_cache_is_empty() {
    let cache = StateCache::new();
    let key = CacheKey::account(Address::new([1; 20]));
    assert_eq!(cache.lookup(&key), None);
    assert!(!cache.is_in_flight(&key));
}

#[test]
fn many_requests_for_one_key_give_one_fetch() {
    let mut cache = StateCache::new();
    let key = CacheKey::storage(Address::new([1; 20]), slot(3));
    let mut fetches = 0;
    let mut waits = 0;
    for _ in 0..10 {
        match cache.request(&key) {
            Access::Fetch => fetches += 1,
            Access::Wait => waits += 1,
            Access::Hit(_) => panic!("nothing was fetched yet"),
        }
    }
    assert_eq!(fetches, 1);
    assert_eq!(waits, 9);
    cache.complete(&key, vec![0xaa; 32]);
    for _ in 0..10 {
        assert_eq!(cache.request(&key), Access::Hit(vec![0xaa; 32]));
    }
    assert!(!cache.is_in_flight(&key));
}

#[test]
fn different_keys_fetch_independently() {
    let mut cache = StateCache::new();
    let a = Address::new([1; 20]);
    let k1 = CacheKey::account(a);
    let k2 = CacheKey::storage(a, slot(0));
    let k3 = CacheKey::storage(a, slot(1));
    let k4 = CacheKey::account(Address::new([2; 20]));
    assert_eq!(cache.request(&k1), Access::Fetch);
    assert_eq!(cache.request(&k2), Access::Fetch);
    assert_eq!(cache.request(&k3), Access::Fetch);
    assert_eq!(cache.request(&k4), Access::Fetch);
    assert_eq!(cache.request(&k2), Access::Wait);
    cache.complete(&k2, vec![2]);
    assert_eq!(cache.request(&k2), Access::Hit(vec![2]));
    assert_eq!(cache.request(&k1), Access::Wait);
    assert_eq!(cache.request(&k3), Access::Wait);
    assert!(cache.is_in_flight(&k4));
    assert_eq!(cache.lookup(&k3), None);
}

#[test]
fn memoized_value_is_never_replaced() {
    let mut cache = StateCache::new();
    let key = CacheKey::account(Address::new([9; 20]));
    assert_eq!(cache.request(&key), Access::Fetch);
    cache.complete(&key, vec![1, 2, 3]);
    cache.complete(&key, vec![4, 5, 6]);
    assert_eq!(cache.lookup(&key), Some(vec![1, 2, 3]));
    assert_eq!(cache.request(&key), Access::Hit(vec![1, 2, 3]));
}

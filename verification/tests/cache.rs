use dots_wallet::cache::ItemSetCache;
use dots_wallet::handlers::{item_set, put_wallet_in_cache};
use dots_wallet::Wallet;
use std::collections::HashSet;

fn set(items: &[u32]) -> HashSet<u32> {
    items.iter().copied().collect()
}

#[test]
fn empty_cache_finds_nothing() {
    let mut cache = ItemSetCache::new(3);
    assert_eq!(cache.lookup(1), None);
    assert_eq!(cache.lookup(0), None);
}

#[test]
fn lookup_returns_what_was_inserted() {
    let mut cache = ItemSetCache::new(3);
    cache.insert(1, set(&[10, 11]));
    cache.insert(2, set(&[]));
    assert_eq!(cache.lookup(1), Some(set(&[10, 11])));
    assert_eq!(cache.lookup(2), Some(set(&[])));
    assert_eq!(cache.lookup(3), None);
}

#[test]
fn insert_replaces_the_set() {
    let mut cache = ItemSetCache::new(3);
    cache.insert(1, set(&[10]));
    cache.insert(1, set(&[20, 30]));
    assert_eq!(cache.lookup(1), Some(set(&[20, 30])));
}

#[test]
fn insert_is_idempotent() {
    let mut cache = ItemSetCache::new(2);
    cache.insert(1, set(&[10]));
    cache.insert(2, set(&[20]));
    cache.insert(2, set(&[20]));
    assert_eq!(cache.lookup(1), Some(set(&[10])));
    assert_eq!(cache.lookup(2), Some(set(&[20])));
}

#[test]
fn third_wallet_evicts_the_first() {
    let mut cache = ItemSetCache::new(2);
    cache.insert(1, set(&[10]));
    cache.insert(2, set(&[20]));
    cache.insert(3, set(&[30]));
    assert_eq!(cache.lookup(1), None);
    assert_eq!(cache.lookup(2), Some(set(&[20])));
    assert_eq!(cache.lookup(3), Some(set(&[30])));
}

#[test]
fn lookup_keeps_a_wallet_in_the_cache() {
    let mut cache = ItemSetCache::new(2);
    cache.insert(1, set(&[10]));
    cache.insert(2, set(&[20]));
    assert_eq!(cache.lookup(1), Some(set(&[10])));
    cache.insert(3, set(&[30]));
    assert_eq!(cache.lookup(2), None);
    assert_eq!(cache.lookup(1), Some(set(&[10])));
    assert_eq!(cache.lookup(3), Some(set(&[30])));
}

#[test]
fn missed_lookup_changes_nothing() {
    let mut cache = ItemSetCache::new(2);
    cache.insert(1, set(&[10]));
    cache.insert(2, set(&[20]));
    assert_eq!(cache.lookup(9), None);
    cache.insert(3, set(&[30]));
    assert_eq!(cache.lookup(1), None);
    assert_eq!(cache.lookup(2), Some(set(&[20])));
}

#[test]
fn replacing_insert_evicts_nothing() {
    let mut cache = ItemSetCache::new(2);
    cache.insert(1, set(&[10]));
    cache.insert(2, set(&[20]));
    cache.insert(1, set(&[11]));
    assert_eq!(cache.lookup(2), Some(set(&[20])));
    assert_eq!(cache.lookup(1), Some(set(&[11])));
    // Wallet 2 is now the least recently used one.
    cache.insert(3, set(&[30]));
    assert_eq!(cache.lookup(2), None);
}

#[test]
fn cache_of_no_capacity_holds_nothing() {
    let mut cache = ItemSetCache::new(0);
    cache.insert(1, set(&[10]));
    assert_eq!(cache.lookup(1), None);
}

#[test]
fn cache_of_one_holds_the_last() {
    let mut cache = ItemSetCache::new(1);
    cache.insert(1, set(&[10]));
    cache.insert(2, set(&[20]));
    assert_eq!(cache.lookup(1), None);
    assert_eq!(cache.lookup(2), Some(set(&[20])));
}

#[test]
fn item_set_drops_repeats() {
    assert_eq!(item_set(&vec![3, 1, 3, 2, 1]), set(&[1, 2, 3]));
    assert_eq!(item_set(&vec![]), set(&[]));
}

#[test]
fn wallet_enters_the_cache_under_its_identifier() {
    let mut cache = ItemSetCache::new(2);
    put_wallet_in_cache(Wallet { id: 8, items: vec![5, 6] }, &mut cache);
    assert_eq!(cache.lookup(8), Some(set(&[5, 6])));
    assert_eq!(cache.lookup(5), None);
}

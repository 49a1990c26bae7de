//! What is taken on trust of the `lru` crate's cache.
//!
//! The cache is opaque to the verifier. Its contents are named by
//! [`lru_entries`], its limit by [`lru_cap`], and each method that the
//! library calls gets a wrapper whose contract says, over those two names,
//! what the method does. Nothing in this file is proved.

use lru::LruCache;
use std::collections::HashSet;
use vstd::prelude::*;

verus! {

#[verifier::external_type_specification]
#[verifier::external_body]
#[verifier::reject_recursive_types(K)]
#[verifier::reject_recursive_types(V)]
#[verifier::reject_recursive_types(S)]
pub struct ExLruCache<K, V, S>(LruCache<K, V, S>);

/// The entries of the cache, most recently used first: each key with the
/// set held under it.
pub uninterp spec fn lru_entries(cache: LruCache<u32, HashSet<u32>>) -> Seq<(u32, Set<u32>)>;

/// The number of entries that the cache was made to hold.
pub uninterp spec fn lru_cap(cache: LruCache<u32, HashSet<u32>>) -> nat;

/// Whether some entry has this key.
pub open spec fn has_key(entries: Seq<(u32, Set<u32>)>, key: u32) -> bool {
    exists|i: int| 0 <= i < entries.len() && (#[trigger] entries[i]).0 == key
}

/// The place of an entry with this key, where there is one.
pub open spec fn key_index(entries: Seq<(u32, Set<u32>)>, key: u32) -> int {
    choose|i: int| 0 <= i < entries.len() && (#[trigger] entries[i]).0 == key
}

/// The entries after a successful or failed `get`: the entry found moves to
/// the front, the others keep their order; a miss changes nothing.
pub open spec fn entries_after_get(entries: Seq<(u32, Set<u32>)>, key: u32) -> Seq<
    (u32, Set<u32>),
> {
    if has_key(entries, key) {
        let at = key_index(entries, key);
        seq![entries[at]] + entries.remove(at)
    } else {
        entries
    }
}

/// The entries after a `put`: an entry with the key is replaced and moves to
/// the front; a new key goes to the front, and where the cache is full the
/// last entry leaves first; a cache made for no entries takes none.
pub open spec fn entries_after_put(
    entries: Seq<(u32, Set<u32>)>,
    cap: nat,
    key: u32,
    items: Set<u32>,
) -> Seq<(u32, Set<u32>)> {
    if has_key(entries, key) {
        seq![(key, items)] + entries.remove(key_index(entries, key))
    } else if cap == 0 {
        entries
    } else if entries.len() == cap {
        seq![(key, items)] + entries.drop_last()
    } else {
        seq![(key, items)] + entries
    }
}

/// The largest limit that [`lru_new`] takes: the table that the cache
/// reserves for that many entries still fits the address space of a 32-bit
/// machine.
pub const MAX_CAPACITY: usize = 16_777_216;

/// `LruCache::new`: an empty cache that holds at most `cap` entries. The
/// call reserves room for `cap` entries at once, so `cap` is bounded.
#[verifier::external_body]
pub(crate) fn lru_new(cap: usize) -> (cache: LruCache<u32, HashSet<u32>>)
    requires
        cap <= MAX_CAPACITY,
    ensures
        lru_entries(cache) == Seq::<(u32, Set<u32>)>::empty(),
        lru_cap(cache) == cap,
{
    LruCache::new(cap)
}

/// `LruCache::get`, with the set found copied out: a hit returns the set
/// held under the key and moves its entry to the front; a miss returns
/// `None` and changes nothing. The limit stays, and the call does not unwind.
#[verifier::external_body]
pub(crate) fn lru_get(cache: &mut LruCache<u32, HashSet<u32>>, key: u32) -> (found: Option<
    HashSet<u32>,
>)
    ensures
        lru_entries(*final(cache)) == entries_after_get(lru_entries(*old(cache)), key),
        lru_cap(*final(cache)) == lru_cap(*old(cache)),
        found is Some <==> has_key(lru_entries(*old(cache)), key),
        found is Some ==> found->Some_0@ == lru_entries(*old(cache))[key_index(
            lru_entries(*old(cache)),
            key,
        )].1,
    no_unwind
{
    cache.get(&key).cloned()
}

/// `LruCache::put`: the set is held under the key, at the front; see
/// [`entries_after_put`] for what leaves. The limit stays, and the call does
/// not unwind.
#[verifier::external_body]
pub(crate) fn lru_put(cache: &mut LruCache<u32, HashSet<u32>>, key: u32, items: HashSet<u32>)
    ensures
        lru_entries(*final(cache)) == entries_after_put(
            lru_entries(*old(cache)),
            lru_cap(*old(cache)),
            key,
            items@,
        ),
        lru_cap(*final(cache)) == lru_cap(*old(cache)),
    no_unwind
{
    cache.put(key, items);
}

} // verus!
